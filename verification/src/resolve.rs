//! Status resolution: each extracted usage record is held against a locale
//! index and classified.
//!
//! The primary language decides `missing`; the other languages are compared
//! against it for placeholder mismatches, fallbacks and localized values.
//! Status marks, in order of precedence: missing primary, placeholder
//! mismatch, a language falling back, a localized value, synced.

use vstd::prelude::*;

use crate::hardcoded::strs_views;
use crate::hardcoded::lemma_strs_views_index;
use crate::hardcoded::lemma_strs_views_len;
use crate::scan::sp_first_colon;
use crate::scan::first_colon;
use crate::text::push_char;
use crate::text::string_chars;
use crate::util::extract_placeholders;
use crate::util::placeholder_equal;
use crate::util::sp_placeholders;

verus! {

/// One extracted usage, as the resolver receives it.
pub struct ScanItemInput {
    pub key: String,
    pub raw: String,
    pub namespace: String,
    pub fallback: bool,
}

/// One locale-index entry, as the resolver receives it.
pub struct ResourceItemInput {
    pub value: Option<String>,
    pub file: Option<String>,
    pub priority: u32,
}

/// The index rows of one language: canonical key to resource entry, the
/// first row with a key winning.
pub struct LangRows {
    pub lang: String,
    pub rows: Vec<KeyRow>,
}

pub struct KeyRow {
    pub key: String,
    pub item: ResourceItemInput,
}

/// What a resolution request carries: the usage records, the primary
/// language, all languages, the locale index, and the language on display.
pub struct ComputeParams {
    pub items: Vec<ScanItemInput>,
    pub primary_lang: String,
    pub languages: Vec<String>,
    pub index: Vec<LangRows>,
    pub current_lang: Option<String>,
}

/// One language's entry in a hover card.
pub struct HoverValue {
    pub value: Option<String>,
    pub file: Option<String>,
    pub missing: bool,
}

/// The hover card of one resolved usage.
pub struct HoverInfo {
    pub key: String,
    pub namespace: Option<String>,
    pub status: Option<String>,
    pub reason: Option<String>,
    pub primary_lang: String,
    pub display_lang: String,
    pub focus_lang: String,
    pub lang_order: Vec<String>,
    pub values: Vec<(String, HoverValue)>,
    pub missing_langs: Option<Vec<String>>,
    pub localized_langs: Option<Vec<String>>,
    pub mismatch_langs: Option<Vec<String>>,
}

/// One resolved usage: its key, the text on display, its status mark, and
/// the hover card.
pub struct ResolvedItem {
    pub key: String,
    pub text: String,
    pub status: String,
    pub hover: HoverInfo,
}

// ---------------------------------------------------------------------------
// Spec model.
// ---------------------------------------------------------------------------

pub struct SHoverValue {
    pub value: Option<Seq<char>>,
    pub file: Option<Seq<char>>,
    pub missing: bool,
}

pub struct SHover {
    pub key: Seq<char>,
    pub namespace: Option<Seq<char>>,
    pub status: Option<Seq<char>>,
    pub reason: Option<Seq<char>>,
    pub primary_lang: Seq<char>,
    pub display_lang: Seq<char>,
    pub focus_lang: Seq<char>,
    pub lang_order: Seq<Seq<char>>,
    pub values: Seq<(Seq<char>, SHoverValue)>,
    pub missing_langs: Option<Seq<Seq<char>>>,
    pub localized_langs: Option<Seq<Seq<char>>>,
    pub mismatch_langs: Option<Seq<Seq<char>>>,
}

pub struct SResolved {
    pub key: Seq<char>,
    pub text: Seq<char>,
    pub status: Seq<char>,
    pub hover: SHover,
}

pub open spec fn opt_str_view(o: Option<String>) -> Option<Seq<char>> {
    match o {
        Some(s) => Some(s@),
        None => None,
    }
}

pub open spec fn hv_view(v: HoverValue) -> SHoverValue {
    SHoverValue { value: opt_str_view(v.value), file: opt_str_view(v.file), missing: v.missing }
}

pub open spec fn hvs_views(s: Seq<(String, HoverValue)>) -> Seq<(Seq<char>, SHoverValue)>
    decreases s,
{
    if s.len() == 0 {
        Seq::empty()
    } else {
        hvs_views(s.drop_last()).push((s.last().0@, hv_view(s.last().1)))
    }
}

pub open spec fn opt_strs_view(o: Option<Vec<String>>) -> Option<Seq<Seq<char>>> {
    match o {
        Some(v) => Some(strs_views(v@)),
        None => None,
    }
}

pub open spec fn hover_view(h: HoverInfo) -> SHover {
    SHover {
        key: h.key@,
        namespace: opt_str_view(h.namespace),
        status: opt_str_view(h.status),
        reason: opt_str_view(h.reason),
        primary_lang: h.primary_lang@,
        display_lang: h.display_lang@,
        focus_lang: h.focus_lang@,
        lang_order: strs_views(h.lang_order@),
        values: hvs_views(h.values@),
        missing_langs: opt_strs_view(h.missing_langs),
        localized_langs: opt_strs_view(h.localized_langs),
        mismatch_langs: opt_strs_view(h.mismatch_langs),
    }
}

pub open spec fn ri_view(r: ResolvedItem) -> SResolved {
    SResolved { key: r.key@, text: r.text@, status: r.status@, hover: hover_view(r.hover) }
}

pub open spec fn ri_views(s: Seq<ResolvedItem>) -> Seq<SResolved>
    decreases s,
{
    if s.len() == 0 {
        Seq::empty()
    } else {
        ri_views(s.drop_last()).push(ri_view(s.last()))
    }
}

/// The rows of the first index entry for this language.
pub open spec fn sp_lang_rows(index: Seq<LangRows>, lang: Seq<char>) -> Option<Seq<KeyRow>>
    decreases index.len(),
{
    if index.len() == 0 {
        None
    } else if index.first().lang@ == lang {
        Some(index.first().rows@)
    } else {
        sp_lang_rows(index.drop_first(), lang)
    }
}

/// The first row with this key.
pub open spec fn sp_row(rows: Seq<KeyRow>, key: Seq<char>) -> Option<ResourceItemInput>
    decreases rows.len(),
{
    if rows.len() == 0 {
        None
    } else if rows.first().key@ == key {
        Some(rows.first().item)
    } else {
        sp_row(rows.drop_first(), key)
    }
}

/// The index entry for `key` under `lang`.
pub open spec fn sp_lookup(index: Seq<LangRows>, lang: Seq<char>, key: Seq<char>) -> Option<
    ResourceItemInput,
> {
    match sp_lang_rows(index, lang) {
        Some(rows) => sp_row(rows, key),
        None => None,
    }
}

pub open spec fn sp_lookup_value(index: Seq<LangRows>, lang: Seq<char>, key: Seq<char>) -> Option<
    Seq<char>,
> {
    match sp_lookup(index, lang, key) {
        Some(item) => opt_str_view(item.value),
        None => None,
    }
}

pub open spec fn sp_lookup_file(index: Seq<LangRows>, lang: Seq<char>, key: Seq<char>) -> Option<
    Seq<char>,
> {
    match sp_lookup(index, lang, key) {
        Some(item) => opt_str_view(item.file),
        None => None,
    }
}

/// A value counts as missing when absent, empty, the raw text itself, the
/// full key, or the key's path after its first namespace separator.
pub open spec fn sp_is_missing(value: Option<Seq<char>>, key: Seq<char>, raw: Seq<char>) -> bool {
    match value {
        None => true,
        Some(v) => v.len() == 0 || v == raw || v == key || (match sp_first_colon(key) {
            Some(p) => v == key.skip(p + 1),
            None => false,
        }),
    }
}

/// The languages other than the primary, in their given order.
pub open spec fn sp_other_langs(langs: Seq<Seq<char>>, primary: Seq<char>) -> Seq<Seq<char>>
    decreases langs.len(),
{
    if langs.len() == 0 {
        Seq::empty()
    } else if langs.first() == primary {
        sp_other_langs(langs.drop_first(), primary)
    } else {
        seq![langs.first()] + sp_other_langs(langs.drop_first(), primary)
    }
}

/// One language's hover entry.
pub open spec fn sp_lang_entry(
    index: Seq<LangRows>,
    lang: Seq<char>,
    key: Seq<char>,
    raw: Seq<char>,
) -> (Seq<char>, SHoverValue) {
    (
        lang,
        SHoverValue {
            value: sp_lookup_value(index, lang, key),
            file: sp_lookup_file(index, lang, key),
            missing: sp_is_missing(sp_lookup_value(index, lang, key), key, raw),
        },
    )
}

/// The compared languages' hover entries, in order.
pub open spec fn sp_cvalues(
    index: Seq<LangRows>,
    compare: Seq<Seq<char>>,
    key: Seq<char>,
    raw: Seq<char>,
) -> Seq<(Seq<char>, SHoverValue)> {
    compare.map_values(|lang: Seq<char>| sp_lang_entry(index, lang, key, raw))
}

/// The hover entries: the primary first, then each compared language.
pub open spec fn sp_values(
    index: Seq<LangRows>,
    primary: Seq<char>,
    compare: Seq<Seq<char>>,
    key: Seq<char>,
    raw: Seq<char>,
) -> Seq<(Seq<char>, SHoverValue)> {
    seq![sp_lang_entry(index, primary, key, raw)] + sp_cvalues(index, compare, key, raw)
}

/// The compared languages whose value is missing.
pub open spec fn sp_missing_langs(
    index: Seq<LangRows>,
    compare: Seq<Seq<char>>,
    key: Seq<char>,
    raw: Seq<char>,
) -> Seq<Seq<char>> {
    compare.filter(|lang: Seq<char>| sp_is_missing(sp_lookup_value(index, lang, key), key, raw))
}

/// Whether a compared language is localized: present, with the primary
/// value present too, and different from it.
pub open spec fn sp_is_localized(
    index: Seq<LangRows>,
    lang: Seq<char>,
    key: Seq<char>,
    raw: Seq<char>,
    pv: Option<Seq<char>>,
) -> bool {
    !sp_is_missing(sp_lookup_value(index, lang, key), key, raw) && pv is Some
        && sp_lookup_value(index, lang, key) is Some && sp_lookup_value(index, lang, key)
        != pv
}

pub open spec fn sp_localized_langs(
    index: Seq<LangRows>,
    compare: Seq<Seq<char>>,
    key: Seq<char>,
    raw: Seq<char>,
    pv: Option<Seq<char>>,
) -> Seq<Seq<char>> {
    compare.filter(|lang: Seq<char>| sp_is_localized(index, lang, key, raw, pv))
}

/// Whether a compared language takes part in the placeholder check.
pub open spec fn sp_is_compared(
    index: Seq<LangRows>,
    lang: Seq<char>,
    key: Seq<char>,
    raw: Seq<char>,
    pv: Option<Seq<char>>,
) -> bool {
    !sp_is_missing(sp_lookup_value(index, lang, key), key, raw) && pv is Some
        && sp_lookup_value(index, lang, key) is Some
}

/// Whether a compared language's placeholders disagree with the base's.
pub open spec fn sp_is_mismatch(
    index: Seq<LangRows>,
    lang: Seq<char>,
    key: Seq<char>,
    raw: Seq<char>,
    pv: Option<Seq<char>>,
    base_ph: Seq<Seq<char>>,
) -> bool {
    sp_is_compared(index, lang, key, raw, pv) && sp_placeholders(
        sp_lookup_value(index, lang, key)->Some_0,
    ) != base_ph
}

pub open spec fn sp_mismatch_langs(
    index: Seq<LangRows>,
    compare: Seq<Seq<char>>,
    key: Seq<char>,
    raw: Seq<char>,
    pv: Option<Seq<char>>,
    base_ph: Seq<Seq<char>>,
) -> Seq<Seq<char>> {
    compare.filter(|lang: Seq<char>| sp_is_mismatch(index, lang, key, raw, pv, base_ph))
}

/// Wraps a list as the hover's optional list: absent when empty.
pub open spec fn sp_opt_list(s: Seq<Seq<char>>) -> Option<Seq<Seq<char>>> {
    if s.len() == 0 {
        None
    } else {
        Some(s)
    }
}

/// The resolution of one usage record.
pub open spec fn sp_resolve_item(
    it_key: Seq<char>,
    it_raw: Seq<char>,
    it_ns: Seq<char>,
    index: Seq<LangRows>,
    primary: Seq<char>,
    display: Seq<char>,
    compare: Seq<Seq<char>>,
    lang_order: Seq<Seq<char>>,
) -> SResolved {
    let pv = sp_lookup_value(index, primary, it_key);
    let dv = match sp_lookup_value(index, display, it_key) {
        Some(v) => Some(v),
        None => pv,
    };
    let missing_primary = sp_is_missing(pv, it_key, it_raw);
    let missing = sp_missing_langs(index, compare, it_key, it_raw);
    let localized = sp_localized_langs(index, compare, it_key, it_raw, pv);
    let base_ph = sp_placeholders(
        match pv {
            Some(v) => v,
            None => Seq::empty(),
        },
    );
    let mismatch = sp_mismatch_langs(index, compare, it_key, it_raw, pv, base_ph);
    let (status, reason): (Seq<char>, Option<Seq<char>>) = if missing_primary {
        ("\u{00d7}"@, Some("missing_primary"@))
    } else if mismatch.len() > 0 {
        ("!"@, Some("placeholder_mismatch"@))
    } else if missing.len() > 0 {
        ("?"@, Some("fallback"@))
    } else if localized.len() > 0 {
        ("\u{2260}"@, Some("localized"@))
    } else {
        ("="@, None)
    };
    SResolved {
        key: it_key,
        text: match dv {
            Some(v) => v,
            None => Seq::empty(),
        },
        status: status,
        hover: SHover {
            key: it_key,
            namespace: Some(it_ns),
            status: Some(status),
            reason: reason,
            primary_lang: primary,
            display_lang: display,
            focus_lang: display,
            lang_order: lang_order,
            values: sp_values(index, primary, compare, it_key, it_raw),
            missing_langs: sp_opt_list(missing),
            localized_langs: sp_opt_list(localized),
            mismatch_langs: sp_opt_list(if missing_primary {
                Seq::empty()
            } else {
                mismatch
            }),
        },
    }
}

/// The resolutions of all records, in order.
pub open spec fn sp_compute(
    items: Seq<ScanItemInput>,
    index: Seq<LangRows>,
    primary: Seq<char>,
    display: Seq<char>,
    compare: Seq<Seq<char>>,
    lang_order: Seq<Seq<char>>,
) -> Seq<SResolved> {
    items.map_values(
        |it: ScanItemInput|
            sp_resolve_item(
                it.key@,
                it.raw@,
                it.namespace@,
                index,
                primary,
                display,
                compare,
                lang_order,
            ),
    )
}

/// Everything `compute` promises: one resolution per record, in order, with
/// the display language defaulting to the primary, the language order
/// putting the primary first, and the other languages compared in their
/// given order.
pub open spec fn compute_post(params: ComputeParams, r: Seq<SResolved>) -> bool {
    let primary = params.primary_lang@;
    let display = match params.current_lang {
        Some(c) => c@,
        None => primary,
    };
    let compare = sp_other_langs(strs_views(params.languages@), primary);
    let lang_order = seq![primary] + compare;
    r == sp_compute(params.items@, params.index@, primary, display, compare, lang_order)
}


// ---------------------------------------------------------------------------
// Exec resolution.
// ---------------------------------------------------------------------------

proof fn lemma_missing_push(
    index: Seq<LangRows>,
    compare: Seq<Seq<char>>,
    x: Seq<char>,
    key: Seq<char>,
    raw: Seq<char>,
)
    ensures
        sp_missing_langs(index, compare.push(x), key, raw) == if sp_is_missing(
            sp_lookup_value(index, x, key),
            key,
            raw,
        ) {
            sp_missing_langs(index, compare, key, raw).push(x)
        } else {
            sp_missing_langs(index, compare, key, raw)
        },
{
    reveal(Seq::filter);
    assert(compare.push(x).drop_last() =~= compare);
    assert(compare.push(x).last() == x);
}

proof fn lemma_localized_push(
    index: Seq<LangRows>,
    compare: Seq<Seq<char>>,
    x: Seq<char>,
    key: Seq<char>,
    raw: Seq<char>,
    pv: Option<Seq<char>>,
)
    ensures
        sp_localized_langs(index, compare.push(x), key, raw, pv) == if sp_is_localized(
            index,
            x,
            key,
            raw,
            pv,
        ) {
            sp_localized_langs(index, compare, key, raw, pv).push(x)
        } else {
            sp_localized_langs(index, compare, key, raw, pv)
        },
{
    reveal(Seq::filter);
    assert(compare.push(x).drop_last() =~= compare);
    assert(compare.push(x).last() == x);
}

proof fn lemma_mismatch_push(
    index: Seq<LangRows>,
    compare: Seq<Seq<char>>,
    x: Seq<char>,
    key: Seq<char>,
    raw: Seq<char>,
    pv: Option<Seq<char>>,
    base_ph: Seq<Seq<char>>,
)
    ensures
        sp_mismatch_langs(index, compare.push(x), key, raw, pv, base_ph) == if sp_is_mismatch(
            index,
            x,
            key,
            raw,
            pv,
            base_ph,
        ) {
            sp_mismatch_langs(index, compare, key, raw, pv, base_ph).push(x)
        } else {
            sp_mismatch_langs(index, compare, key, raw, pv, base_ph)
        },
{
    reveal(Seq::filter);
    assert(compare.push(x).drop_last() =~= compare);
    assert(compare.push(x).last() == x);
}

proof fn lemma_filter_empty_langs()
    ensures
        forall|index: Seq<LangRows>, key: Seq<char>, raw: Seq<char>|
            #[trigger] sp_missing_langs(index, Seq::<Seq<char>>::empty(), key, raw)
                == Seq::<Seq<char>>::empty(),
        forall|index: Seq<LangRows>, key: Seq<char>, raw: Seq<char>, pv: Option<Seq<char>>|
            #[trigger] sp_localized_langs(index, Seq::<Seq<char>>::empty(), key, raw, pv)
                == Seq::<Seq<char>>::empty(),
        forall|
            index: Seq<LangRows>,
            key: Seq<char>,
            raw: Seq<char>,
            pv: Option<Seq<char>>,
            base_ph: Seq<Seq<char>>,
        |
            #[trigger] sp_mismatch_langs(index, Seq::<Seq<char>>::empty(), key, raw, pv, base_ph)
                == Seq::<Seq<char>>::empty(),
{
    reveal(Seq::filter);
}

proof fn lemma_cvalues_push(
    index: Seq<LangRows>,
    compare: Seq<Seq<char>>,
    x: Seq<char>,
    key: Seq<char>,
    raw: Seq<char>,
)
    ensures
        sp_cvalues(index, compare.push(x), key, raw) == sp_cvalues(index, compare, key, raw).push(
            sp_lang_entry(index, x, key, raw),
        ),
{
    assert(sp_cvalues(index, compare.push(x), key, raw) =~= sp_cvalues(
        index,
        compare,
        key,
        raw,
    ).push(sp_lang_entry(index, x, key, raw)));
}

proof fn lemma_cvalues_empty(index: Seq<LangRows>, key: Seq<char>, raw: Seq<char>)
    ensures
        sp_cvalues(index, Seq::<Seq<char>>::empty(), key, raw) == Seq::<
            (Seq<char>, SHoverValue),
        >::empty(),
{
    assert(sp_cvalues(index, Seq::<Seq<char>>::empty(), key, raw) =~= Seq::<
        (Seq<char>, SHoverValue),
    >::empty());
}

fn lang_rows<'a>(index: &'a Vec<LangRows>, lang: &String) -> (r: Option<&'a Vec<KeyRow>>)
    ensures
        match r {
            Some(rows) => sp_lang_rows(index@, lang@) == Some(rows@),
            None => sp_lang_rows(index@, lang@) is None,
        },
{
    let mut i: usize = 0;
    proof {
        assert(index@.skip(0) =~= index@);
    }
    while i < index.len()
        invariant
            i <= index@.len(),
            sp_lang_rows(index@, lang@) == sp_lang_rows(index@.skip(i as int), lang@),
        decreases index@.len() - i,
    {
        proof {
            assert(index@.skip(i as int).first() == index@[i as int]);
            assert(index@.skip(i as int).drop_first() =~= index@.skip(i as int + 1));
        }
        if index[i].lang == *lang {
            return Some(&index[i].rows);
        }
        i += 1;
    }
    proof {
        assert(index@.skip(i as int).len() == 0);
    }
    None
}

fn row<'a>(rows: &'a Vec<KeyRow>, key: &String) -> (r: Option<&'a ResourceItemInput>)
    ensures
        match r {
            Some(item) => sp_row(rows@, key@) == Some(*item),
            None => sp_row(rows@, key@) is None,
        },
{
    let mut i: usize = 0;
    proof {
        assert(rows@.skip(0) =~= rows@);
    }
    while i < rows.len()
        invariant
            i <= rows@.len(),
            sp_row(rows@, key@) == sp_row(rows@.skip(i as int), key@),
        decreases rows@.len() - i,
    {
        proof {
            assert(rows@.skip(i as int).first() == rows@[i as int]);
            assert(rows@.skip(i as int).drop_first() =~= rows@.skip(i as int + 1));
        }
        if rows[i].key == *key {
            return Some(&rows[i].item);
        }
        i += 1;
    }
    proof {
        assert(rows@.skip(i as int).len() == 0);
    }
    None
}

fn lookup_value(index: &Vec<LangRows>, lang: &String, key: &String) -> (r: Option<String>)
    ensures
        opt_str_view(r) == sp_lookup_value(index@, lang@, key@),
{
    match lang_rows(index, lang) {
        Some(rows) => match row(rows, key) {
            Some(item) => match &item.value {
                Some(v) => Some(v.clone()),
                None => None,
            },
            None => None,
        },
        None => None,
    }
}

fn lookup_file(index: &Vec<LangRows>, lang: &String, key: &String) -> (r: Option<String>)
    ensures
        opt_str_view(r) == sp_lookup_file(index@, lang@, key@),
{
    match lang_rows(index, lang) {
        Some(rows) => match row(rows, key) {
            Some(item) => match &item.file {
                Some(v) => Some(v.clone()),
                None => None,
            },
            None => None,
        },
        None => None,
    }
}

fn is_missing(value: &Option<String>, key: &String, raw: &String) -> (r: bool)
    ensures
        r == sp_is_missing(opt_str_view(*value), key@, raw@),
{
    match value {
        None => true,
        Some(v) => {
            if v.unicode_len() == 0 {
                return true;
            }
            if *v == *raw {
                return true;
            }
            if *v == *key {
                return true;
            }
            let kcs = string_chars(key);
            let klen = kcs.len();
            match first_colon(&kcs) {
                Some(p) => {
                    let mut path = String::new();
                    let mut m = p + 1;
                    proof {
                        assert(path@ =~= key@.subrange(p + 1, p as int + 1));
                    }
                    while m < kcs.len()
                        invariant
                            p + 1 <= m <= kcs@.len(),
                            kcs@ == key@,
                            path@ == key@.subrange(p as int + 1, m as int),
                        decreases kcs@.len() - m,
                    {
                        push_char(&mut path, kcs[m]);
                        proof {
                            assert(path@ =~= key@.subrange(p as int + 1, m as int + 1));
                        }
                        m += 1;
                    }
                    proof {
                        assert(key@.subrange(p as int + 1, key@.len() as int) =~= key@.skip(
                            p as int + 1,
                        ));
                    }
                    *v == path
                },
                None => false,
            }
        },
    }
}

/// Resolves each record against the index.
pub fn compute(params: &ComputeParams) -> (r: Vec<ResolvedItem>)
    ensures
        compute_post(*params, ri_views(r@)),
{
    let primary = &params.primary_lang;
    let display: String = match &params.current_lang {
        Some(c) => c.clone(),
        None => primary.clone(),
    };
    // the compared languages, in order
    let mut compare: Vec<String> = Vec::new();
    let ghost lv = strs_views(params.languages@);
    {
        let mut i: usize = 0;
        proof {
            lemma_strs_views_len(params.languages@);
            assert(strs_views(Seq::<String>::empty()) =~= Seq::<Seq<char>>::empty());
            assert(lv.skip(0) =~= lv);
            assert(sp_other_langs(lv, primary@) == strs_views(compare@) + sp_other_langs(
                lv.skip(0),
                primary@,
            ));
        }
        while i < params.languages.len()
            invariant
                i <= params.languages@.len(),
                lv == strs_views(params.languages@),
                lv.len() == params.languages@.len(),
                sp_other_langs(lv, primary@) == strs_views(compare@) + sp_other_langs(
                    lv.skip(i as int),
                    primary@,
                ),
            decreases params.languages@.len() - i,
        {
            proof {
                lemma_strs_views_index(params.languages@, i as int);
                assert(lv.skip(i as int).first() == lv[i as int]);
                assert(lv.skip(i as int).drop_first() =~= lv.skip(i as int + 1));
            }
            if !(params.languages[i] == *primary) {
                let ghost oldc = compare@;
                compare.push(params.languages[i].clone());
                proof {
                    assert(compare@.drop_last() =~= oldc);
                    assert(strs_views(compare@) == strs_views(oldc).push(compare@.last()@));
                    assert(strs_views(oldc) + (seq![lv[i as int]] + sp_other_langs(
                        lv.skip(i as int + 1),
                        primary@,
                    )) =~= strs_views(compare@) + sp_other_langs(lv.skip(i as int + 1), primary@));
                }
            }
            i += 1;
        }
        proof {
            assert(lv.skip(i as int).len() == 0);
            assert(strs_views(compare@) + sp_other_langs(lv.skip(i as int), primary@)
                =~= strs_views(compare@));
        }
    }
    let ghost comparev = strs_views(compare@);
    // the hover language order: the primary first
    let mut lang_order: Vec<String> = Vec::new();
    lang_order.push(primary.clone());
    {
        let mut i: usize = 0;
        proof {
            lemma_strs_views_len(compare@);
            assert(lang_order@.drop_last() =~= Seq::<String>::empty());
            assert(strs_views(lang_order@) =~= seq![primary@]);
            assert(strs_views(lang_order@) =~= seq![primary@] + comparev.take(0));
        }
        while i < compare.len()
            invariant
                i <= compare@.len(),
                comparev == strs_views(compare@),
                comparev.len() == compare@.len(),
                strs_views(lang_order@) == seq![primary@] + comparev.take(i as int),
            decreases compare@.len() - i,
        {
            proof {
                lemma_strs_views_index(compare@, i as int);
            }
            let ghost oldo = lang_order@;
            lang_order.push(compare[i].clone());
            proof {
                assert(lang_order@.drop_last() =~= oldo);
                assert(strs_views(lang_order@) == strs_views(oldo).push(lang_order@.last()@));
                assert(strs_views(lang_order@) =~= seq![primary@] + comparev.take(i as int + 1));
            }
            i += 1;
        }
        proof {
            assert(comparev.take(compare@.len() as int) =~= comparev);
        }
    }
    // resolve each record
    let mut out: Vec<ResolvedItem> = Vec::new();
    let mut i: usize = 0;
    let ghost itemsv = params.items@;
    proof {
        assert(ri_views(Seq::<ResolvedItem>::empty()) =~= Seq::<SResolved>::empty());
        assert(Seq::<SResolved>::empty() =~= sp_compute(
            itemsv.take(0),
            params.index@,
            primary@,
            display@,
            comparev,
            seq![primary@] + comparev,
        ));
    }
    while i < params.items.len()
        invariant
            i <= params.items@.len(),
            itemsv == params.items@,
            comparev == strs_views(compare@),
            display@ == (match params.current_lang {
                Some(c) => c@,
                None => params.primary_lang@,
            }),
            strs_views(lang_order@) == seq![params.primary_lang@] + comparev,
            comparev == sp_other_langs(strs_views(params.languages@), params.primary_lang@),
            primary@ == params.primary_lang@,
            ri_views(out@) == sp_compute(
                itemsv.take(i as int),
                params.index@,
                params.primary_lang@,
                display@,
                comparev,
                seq![params.primary_lang@] + comparev,
            ),
        decreases params.items@.len() - i,
    {
        let it = &params.items[i];
        let resolved = resolve_one(
            it,
            &params.index,
            primary,
            &display,
            &compare,
            &lang_order,
            Ghost(comparev),
        );
        let ghost oldo = out@;
        out.push(resolved);
        proof {
            assert(out@.drop_last() =~= oldo);
            assert(ri_views(out@) == ri_views(oldo).push(ri_view(out@.last())));
            assert(itemsv.take(i as int + 1) =~= itemsv.take(i as int).push(itemsv[i as int]));
            assert(sp_compute(
                itemsv.take(i as int + 1),
                params.index@,
                params.primary_lang@,
                display@,
                comparev,
                seq![params.primary_lang@] + comparev,
            ) =~= sp_compute(
                itemsv.take(i as int),
                params.index@,
                params.primary_lang@,
                display@,
                comparev,
                seq![params.primary_lang@] + comparev,
            ).push(
                sp_resolve_item(
                    itemsv[i as int].key@,
                    itemsv[i as int].raw@,
                    itemsv[i as int].namespace@,
                    params.index@,
                    params.primary_lang@,
                    display@,
                    comparev,
                    seq![params.primary_lang@] + comparev,
                ),
            ));
        }
        i += 1;
    }
    proof {
        assert(itemsv.take(params.items@.len() as int) =~= itemsv);
    }
    out
}

#[verifier::rlimit(80)]
fn resolve_one(
    it: &ScanItemInput,
    index: &Vec<LangRows>,
    primary: &String,
    display: &String,
    compare: &Vec<String>,
    lang_order: &Vec<String>,
    Ghost(comparev): Ghost<Seq<Seq<char>>>,
) -> (r: ResolvedItem)
    requires
        comparev == strs_views(compare@),
        strs_views(lang_order@) == seq![primary@] + comparev,
    ensures
        ri_view(r) == sp_resolve_item(
            it.key@,
            it.raw@,
            it.namespace@,
            index@,
            primary@,
            display@,
            comparev,
            strs_views(lang_order@),
        ),
{
    let pv = lookup_value(index, primary, &it.key);
    let dv: Option<String> = match lookup_value(index, display, &it.key) {
        Some(v) => Some(v),
        None => match &pv {
            Some(v) => Some(v.clone()),
            None => None,
        },
    };
    let missing_primary = is_missing(&pv, &it.key, &it.raw);
    let base_src: String = match &pv {
        Some(v) => v.clone(),
        None => String::new(),
    };
    let base_ph = extract_placeholders(base_src.as_str());
    let ghost base_phv = sp_placeholders(
        match opt_str_view(pv) {
            Some(v) => v,
            None => Seq::empty(),
        },
    );
    proof {
        assert(strs_views(base_ph@) == base_phv);
    }
    // one pass over the compared languages for values and the three lists
    let mut values: Vec<(String, HoverValue)> = Vec::new();
    let pval = lookup_value(index, primary, &it.key);
    let pfile = lookup_file(index, primary, &it.key);
    let pmiss = is_missing(&pval, &it.key, &it.raw);
    values.push((primary.clone(), HoverValue { value: pval, file: pfile, missing: pmiss }));
    let ghost pentry = sp_lang_entry(index@, primary@, it.key@, it.raw@);
    proof {
        assert(values@.drop_last() =~= Seq::<(String, HoverValue)>::empty());
        assert(values@.last().0@ == primary@);
        assert(opt_str_view(values@.last().1.value) == sp_lookup_value(
            index@,
            primary@,
            it.key@,
        ));
        assert(opt_str_view(values@.last().1.file) == sp_lookup_file(index@, primary@, it.key@));
        assert(values@.last().1.missing == sp_is_missing(
            sp_lookup_value(index@, primary@, it.key@),
            it.key@,
            it.raw@,
        ));
        assert(hv_view(values@.last().1) == pentry.1);
        assert((values@.last().0@, hv_view(values@.last().1)) == pentry);
        assert(hvs_views(values@.drop_last()) =~= Seq::<(Seq<char>, SHoverValue)>::empty());
        assert(hvs_views(values@) == hvs_views(values@.drop_last()).push(
            (values@.last().0@, hv_view(values@.last().1)),
        ));
        assert(hvs_views(values@) =~= seq![pentry]);
    }
    let mut missing_langs: Vec<String> = Vec::new();
    let mut localized_langs: Vec<String> = Vec::new();
    let mut mismatch_langs: Vec<String> = Vec::new();
    let mut i: usize = 0;
    proof {
        lemma_strs_views_len(compare@);
        lemma_filter_empty_langs();
        assert(comparev.take(0) =~= Seq::<Seq<char>>::empty());
        lemma_cvalues_empty(index@, it.key@, it.raw@);
        assert(hvs_views(values@) =~= seq![pentry] + sp_cvalues(
            index@,
            comparev.take(0),
            it.key@,
            it.raw@,
        ));
        assert(strs_views(missing_langs@) =~= Seq::<Seq<char>>::empty());
        assert(strs_views(localized_langs@) =~= Seq::<Seq<char>>::empty());
        assert(strs_views(mismatch_langs@) =~= Seq::<Seq<char>>::empty());
    }
    while i < compare.len()
        invariant
            i <= compare@.len(),
            comparev == strs_views(compare@),
            comparev.len() == compare@.len(),
            hvs_views(values@) == seq![pentry] + sp_cvalues(
                index@,
                comparev.take(i as int),
                it.key@,
                it.raw@,
            ),
            pentry == sp_lang_entry(index@, primary@, it.key@, it.raw@),
            strs_views(missing_langs@) == sp_missing_langs(
                index@,
                comparev.take(i as int),
                it.key@,
                it.raw@,
            ),
            strs_views(localized_langs@) == sp_localized_langs(
                index@,
                comparev.take(i as int),
                it.key@,
                it.raw@,
                opt_str_view(pv),
            ),
            strs_views(mismatch_langs@) == sp_mismatch_langs(
                index@,
                comparev.take(i as int),
                it.key@,
                it.raw@,
                opt_str_view(pv),
                base_phv,
            ),
            opt_str_view(pv) == sp_lookup_value(index@, primary@, it.key@),
            base_phv == sp_placeholders(
                match sp_lookup_value(index@, primary@, it.key@) {
                    Some(v) => v,
                    None => Seq::<char>::empty(),
                },
            ),
            strs_views(base_ph@) == base_phv,
        decreases compare@.len() - i,
    {
        proof {
            lemma_strs_views_index(compare@, i as int);
            assert(comparev.take(i as int).push(comparev[i as int]) =~= comparev.take(
                i as int + 1,
            ));
            lemma_missing_push(index@, comparev.take(i as int), comparev[i as int], it.key@, it.raw@);
            lemma_localized_push(
                index@,
                comparev.take(i as int),
                comparev[i as int],
                it.key@,
                it.raw@,
                opt_str_view(pv),
            );
            lemma_mismatch_push(
                index@,
                comparev.take(i as int),
                comparev[i as int],
                it.key@,
                it.raw@,
                opt_str_view(pv),
                base_phv,
            );
            lemma_cvalues_push(
                index@,
                comparev.take(i as int),
                comparev[i as int],
                it.key@,
                it.raw@,
            );
        }
        let lang = &compare[i];
        let value = lookup_value(index, lang, &it.key);
        let file = lookup_file(index, lang, &it.key);
        let missing = is_missing(&value, &it.key, &it.raw);
        let ghost oldv = values@;
        let lang_c = lang.clone();
        let value_c: Option<String> = match &value {
            Some(v) => Some(v.clone()),
            None => None,
        };
        values.push((lang_c, HoverValue { value: value_c, file, missing }));
        proof {
            assert(values@.drop_last() =~= oldv);
            assert(hvs_views(values@) == hvs_views(oldv).push(
                (values@.last().0@, hv_view(values@.last().1)),
            ));
            assert((values@.last().0@, hv_view(values@.last().1)) == sp_lang_entry(
                index@,
                comparev[i as int],
                it.key@,
                it.raw@,
            ));
            assert(hvs_views(values@) =~= seq![pentry] + sp_cvalues(
                index@,
                comparev.take(i as int + 1),
                it.key@,
                it.raw@,
            ));
        }
        if missing {
            let ghost oldm = missing_langs@;
            missing_langs.push(lang.clone());
            proof {
                assert(missing_langs@.drop_last() =~= oldm);
                assert(strs_views(missing_langs@) == strs_views(oldm).push(
                    missing_langs@.last()@,
                ));
            }
        } else {
            let is_loc = match (&pv, &value) {
                (Some(p), Some(v)) => !(*v == *p),
                _ => false,
            };
            if is_loc {
                let ghost oldl = localized_langs@;
                localized_langs.push(lang.clone());
                proof {
                    assert(localized_langs@.drop_last() =~= oldl);
                    assert(strs_views(localized_langs@) == strs_views(oldl).push(
                        localized_langs@.last()@,
                    ));
                }
            }
            let compared = match (&pv, &value) {
                (Some(p), Some(v)) => true,
                _ => false,
            };
            if compared {
                let vstr: String = match &value {
                    Some(v) => v.clone(),
                    None => String::new(),
                };
                let cur_ph = extract_placeholders(vstr.as_str());
                let eq = placeholder_equal(&base_ph, &cur_ph);
                if !eq {
                    let ghost oldmm = mismatch_langs@;
                    mismatch_langs.push(lang.clone());
                    proof {
                        assert(mismatch_langs@.drop_last() =~= oldmm);
                        assert(strs_views(mismatch_langs@) == strs_views(oldmm).push(
                            mismatch_langs@.last()@,
                        ));
                    }
                }
            }
        }
        i += 1;
    }
    proof {
        assert(comparev.take(compare@.len() as int) =~= comparev);
    }
    let (status, reason): (String, Option<String>) = if missing_primary {
        (String::from_str("\u{00d7}"), Some(String::from_str("missing_primary")))
    } else if mismatch_langs.len() > 0 {
        proof {
            lemma_strs_views_len(mismatch_langs@);
        }
        (String::from_str("!"), Some(String::from_str("placeholder_mismatch")))
    } else if missing_langs.len() > 0 {
        proof {
            lemma_strs_views_len(missing_langs@);
            lemma_strs_views_len(mismatch_langs@);
        }
        (String::from_str("?"), Some(String::from_str("fallback")))
    } else if localized_langs.len() > 0 {
        proof {
            lemma_strs_views_len(localized_langs@);
            lemma_strs_views_len(missing_langs@);
            lemma_strs_views_len(mismatch_langs@);
        }
        (String::from_str("\u{2260}"), Some(String::from_str("localized")))
    } else {
        proof {
            lemma_strs_views_len(localized_langs@);
            lemma_strs_views_len(missing_langs@);
            lemma_strs_views_len(mismatch_langs@);
        }
        (String::from_str("="), None)
    };
    proof {
        lemma_strs_views_len(missing_langs@);
        lemma_strs_views_len(localized_langs@);
        lemma_strs_views_len(mismatch_langs@);
    }
    let opt_missing: Option<Vec<String>> = if missing_langs.len() == 0 {
        None
    } else {
        Some(missing_langs)
    };
    let opt_localized: Option<Vec<String>> = if localized_langs.len() == 0 {
        None
    } else {
        Some(localized_langs)
    };
    let opt_mismatch: Option<Vec<String>> = if missing_primary {
        None
    } else if mismatch_langs.len() == 0 {
        None
    } else {
        Some(mismatch_langs)
    };
    let status_c = status.clone();
    let reason_c: Option<String> = match &reason {
        Some(s) => Some(s.clone()),
        None => None,
    };
    let text: String = match &dv {
        Some(v) => v.clone(),
        None => String::new(),
    };
    ResolvedItem {
        key: it.key.clone(),
        text,
        status,
        hover: HoverInfo {
            key: it.key.clone(),
            namespace: Some(it.namespace.clone()),
            status: Some(status_c),
            reason: reason_c,
            primary_lang: primary.clone(),
            display_lang: display.clone(),
            focus_lang: display.clone(),
            lang_order: clone_lang_order(lang_order),
            values,
            missing_langs: opt_missing,
            localized_langs: opt_localized,
            mismatch_langs: opt_mismatch,
        },
    }
}

/// An element-for-element copy with the same view.
fn clone_lang_order(v: &Vec<String>) -> (r: Vec<String>)
    ensures
        r@ == v@,
{
    let mut out: Vec<String> = Vec::new();
    let mut i: usize = 0;
    while i < v.len()
        invariant
            i <= v@.len(),
            out@ == v@.take(i as int),
        decreases v@.len() - i,
    {
        out.push(v[i].clone());
        proof {
            assert(out@ =~= v@.take(i as int + 1));
        }
        i += 1;
    }
    proof {
        assert(v@.take(v@.len() as int) =~= v@);
    }
    out
}

} // verus!
