//! The locale index: per language, a map from canonical key to resource
//! entry, with the files it was read from, the languages and namespaces it
//! holds, and the errors met while reading.  A small cache keyed by the
//! root configuration keeps built indices between requests.

use vstd::prelude::*;

use crate::hardcoded::strs_views;
use crate::hardcoded::lemma_strs_views_index;
use crate::hardcoded::lemma_strs_views_len;
use crate::scan::sp_first_colon;
use crate::scan::first_colon;
use crate::text::push_char;
use crate::text::string_chars;
use crate::util::FlatEntry;
use crate::util::SFlat;
use crate::util::fe_views;
use crate::util::lemma_fe_views_index;
use crate::util::lemma_fe_views_len;
use crate::util::sp_str_sort;
use crate::util::sp_dedup;

verus! {

/// One resource entry: its value, the file it came from, and the priority
/// of that file's layout (lower wins).
pub struct ResourceItem {
    pub value: Option<String>,
    pub file: Option<String>,
    pub priority: u32,
}

/// One keyed row of a language's map.
pub struct KeyedItem {
    pub key: String,
    pub item: ResourceItem,
}

/// One language's rows.
pub struct LangMap {
    pub lang: String,
    pub entries: Vec<KeyedItem>,
}

/// One file's recorded modification time.
pub struct FileMtime {
    pub path: String,
    pub mtime: u64,
}

/// One failure to read or parse a resource file.
pub struct IndexError {
    pub lang: String,
    pub file: String,
    pub error: String,
}

/// A built locale index.
pub struct IndexResult {
    pub index: Vec<LangMap>,
    pub files: Vec<FileMtime>,
    pub languages: Vec<String>,
    pub errors: Vec<IndexError>,
    pub namespaces: Vec<String>,
}

// ---------------------------------------------------------------------------
// Spec model.
// ---------------------------------------------------------------------------

pub struct SRes {
    pub value: Option<Seq<char>>,
    pub file: Option<Seq<char>>,
    pub priority: u32,
}

pub struct SKeyed {
    pub key: Seq<char>,
    pub item: SRes,
}

pub struct SLangMap {
    pub lang: Seq<char>,
    pub entries: Seq<SKeyed>,
}

pub open spec fn res_view(r: ResourceItem) -> SRes {
    SRes {
        value: crate::resolve::opt_str_view(r.value),
        file: crate::resolve::opt_str_view(r.file),
        priority: r.priority,
    }
}

pub open spec fn keyed_view(k: KeyedItem) -> SKeyed {
    SKeyed { key: k.key@, item: res_view(k.item) }
}

pub open spec fn rows_views(s: Seq<KeyedItem>) -> Seq<SKeyed>
    decreases s,
{
    if s.len() == 0 {
        Seq::empty()
    } else {
        rows_views(s.drop_last()).push(keyed_view(s.last()))
    }
}

pub open spec fn lm_view(m: LangMap) -> SLangMap {
    SLangMap { lang: m.lang@, entries: rows_views(m.entries@) }
}

pub open spec fn lms_views(s: Seq<LangMap>) -> Seq<SLangMap>
    decreases s,
{
    if s.len() == 0 {
        Seq::empty()
    } else {
        lms_views(s.drop_last()).push(lm_view(s.last()))
    }
}

pub broadcast proof fn lemma_rows_views_index(s: Seq<KeyedItem>, i: int)
    requires
        0 <= i < s.len(),
    ensures
        #[trigger] rows_views(s)[i] == keyed_view(s[i]),
        rows_views(s).len() == s.len(),
    decreases s,
{
    if s.len() > 0 {
        if i < s.len() - 1 {
            lemma_rows_views_index(s.drop_last(), i);
        } else {
            lemma_rows_views_len(s.drop_last());
        }
    }
}

pub broadcast proof fn lemma_rows_views_len(s: Seq<KeyedItem>)
    ensures
        #[trigger] rows_views(s).len() == s.len(),
    decreases s,
{
    if s.len() > 0 {
        lemma_rows_views_len(s.drop_last());
    }
}

pub broadcast proof fn lemma_lms_views_index(s: Seq<LangMap>, i: int)
    requires
        0 <= i < s.len(),
    ensures
        #[trigger] lms_views(s)[i] == lm_view(s[i]),
        lms_views(s).len() == s.len(),
    decreases s,
{
    if s.len() > 0 {
        if i < s.len() - 1 {
            lemma_lms_views_index(s.drop_last(), i);
        } else {
            lemma_lms_views_len(s.drop_last());
        }
    }
}

pub broadcast proof fn lemma_lms_views_len(s: Seq<LangMap>)
    ensures
        #[trigger] lms_views(s).len() == s.len(),
    decreases s,
{
    if s.len() > 0 {
        lemma_lms_views_len(s.drop_last());
    }
}

/// `rows` with `(key, item)` upserted: an absent key is appended; a present
/// key is replaced when the new priority is strictly lower.
pub open spec fn sp_upsert(rows: Seq<SKeyed>, key: Seq<char>, item: SRes) -> Seq<SKeyed>
    decreases rows.len(),
{
    if rows.len() == 0 {
        seq![SKeyed { key: key, item: item }]
    } else if rows.last().key == key {
        if item.priority < rows.last().item.priority {
            rows.drop_last().push(SKeyed { key: key, item: item })
        } else {
            rows
        }
    } else {
        sp_upsert(rows.drop_last(), key, item).push(rows.last())
    }
}

/// `rows` after upserting every flattened entry under the namespace, in
/// order, each valued from `file` at `priority`.
pub open spec fn sp_upsert_flat(
    rows: Seq<SKeyed>,
    flat: Seq<SFlat>,
    ns: Seq<char>,
    file: Seq<char>,
    priority: u32,
) -> Seq<SKeyed>
    decreases flat.len(),
{
    if flat.len() == 0 {
        rows
    } else {
        let e = flat.first();
        let rows2 = sp_upsert(
            rows,
            ns + ":"@ + e.key,
            SRes { value: Some(e.value), file: Some(file), priority: priority },
        );
        sp_upsert_flat(rows2, flat.drop_first(), ns, file, priority)
    }
}

/// The index with the flattened entries of one file merged into `lang`'s
/// map; a new language is appended at the end.
pub open spec fn sp_insert_items(
    index: Seq<SLangMap>,
    lang: Seq<char>,
    flat: Seq<SFlat>,
    ns: Seq<char>,
    file: Seq<char>,
    priority: u32,
) -> Seq<SLangMap>
    decreases index.len(),
{
    if index.len() == 0 {
        seq![
            SLangMap { lang: lang, entries: sp_upsert_flat(Seq::empty(), flat, ns, file, priority) },
        ]
    } else if index.first().lang == lang {
        seq![
            SLangMap {
                lang: lang,
                entries: sp_upsert_flat(index.first().entries, flat, ns, file, priority),
            },
        ] + index.drop_first()
    } else {
        seq![index.first()] + sp_insert_items(index.drop_first(), lang, flat, ns, file, priority)
    }
}

// ---------------------------------------------------------------------------
// Exec.
// ---------------------------------------------------------------------------

/// `a + ":" + b`.
fn cat_colon(a: &String, b: &String) -> (r: String)
    ensures
        r@ == a@ + ":"@ + b@,
{
    let mut out = a.clone();
    proof {
        reveal_strlit(":");
    }
    push_char(&mut out, ':');
    proof {
        assert(out@ =~= a@ + ":"@);
    }
    out.append(b.as_str());
    out
}

fn upsert(rows: Vec<KeyedItem>, key: String, item: ResourceItem) -> (r: Vec<KeyedItem>)
    ensures
        rows_views(r@) == sp_upsert(rows_views(rows@), key@, res_view(item)),
    decreases rows@.len(),
{
    let ghost r0 = rows@;
    let mut rows = rows;
    proof {
        lemma_rows_views_len(r0);
    }
    if rows.len() == 0 {
        rows.push(KeyedItem { key, item });
        proof {
            assert(rows@.drop_last() =~= r0);
            assert(rows_views(rows@) == rows_views(r0).push(keyed_view(rows@.last())));
            assert(rows_views(rows@) =~= seq![keyed_view(rows@.last())]);
        }
        rows
    } else {
        let same = rows[rows.len() - 1].key == key;
        proof {
            lemma_rows_views_index(r0, r0.len() - 1);
            assert(r0.last() == r0[r0.len() - 1]);
            assert(rows_views(r0).last() == keyed_view(r0.last()));
        }
        if same {
            if item.priority < rows[rows.len() - 1].item.priority {
                let _old = rows.pop().unwrap();
                proof {
                    assert(rows@ =~= r0.drop_last());
                    assert(rows_views(r0).drop_last() =~= rows_views(r0.drop_last()));
                }
                let ghost mid = rows@;
                rows.push(KeyedItem { key, item });
                proof {
                    assert(rows@.drop_last() =~= mid);
                    assert(rows_views(rows@) == rows_views(mid).push(keyed_view(rows@.last())));
                }
                rows
            } else {
                rows
            }
        } else {
            let last = rows.pop().unwrap();
            proof {
                assert(rows@ =~= r0.drop_last());
                assert(rows_views(r0).drop_last() =~= rows_views(r0.drop_last()));
            }
            let mut r = upsert(rows, key, item);
            let ghost rv = r@;
            r.push(last);
            proof {
                assert(r@.drop_last() =~= rv);
                assert(rows_views(r@) == rows_views(rv).push(keyed_view(r@.last())));
            }
            r
        }
    }
}

fn upsert_flat(
    rows: Vec<KeyedItem>,
    flat: &Vec<FlatEntry>,
    ns: &String,
    file: &String,
    priority: u32,
) -> (r: Vec<KeyedItem>)
    ensures
        rows_views(r@) == sp_upsert_flat(rows_views(rows@), fe_views(flat@), ns@, file@, priority),
{
    let mut rows = rows;
    let ghost fv = fe_views(flat@);
    let ghost rows0 = rows_views(rows@);
    let mut i: usize = 0;
    proof {
        lemma_fe_views_len(flat@);
        assert(fv.skip(0) =~= fv);
    }
    while i < flat.len()
        invariant
            i <= flat@.len(),
            fv == fe_views(flat@),
            fv.len() == flat@.len(),
            sp_upsert_flat(rows0, fv, ns@, file@, priority) == sp_upsert_flat(
                rows_views(rows@),
                fv.skip(i as int),
                ns@,
                file@,
                priority,
            ),
        decreases flat@.len() - i,
    {
        proof {
            lemma_fe_views_index(flat@, i as int);
            assert(fv.skip(i as int).first() == fv[i as int]);
            assert(fv.skip(i as int).drop_first() =~= fv.skip(i as int + 1));
        }
        let e = &flat[i];
        let key = cat_colon(ns, &e.key);
        let item = ResourceItem {
            value: Some(e.value.clone()),
            file: Some(file.clone()),
            priority,
        };
        rows = upsert(rows, key, item);
        i += 1;
    }
    proof {
        assert(fv.skip(i as int).len() == 0);
    }
    rows
}

/// Merges one file's flattened entries into the language's map: an absent
/// key is added, a present key replaced only by a strictly lower priority.
pub fn insert_items(
    index: Vec<LangMap>,
    lang: &String,
    namespace: &String,
    flat: &Vec<FlatEntry>,
    file_path: &String,
    priority: u32,
) -> (r: Vec<LangMap>)
    ensures
        lms_views(r@) == sp_insert_items(
            lms_views(index@),
            lang@,
            fe_views(flat@),
            namespace@,
            file_path@,
            priority,
        ),
    decreases index@.len(),
{
    let ghost iv0 = index@;
    let mut index = index;
    proof {
        lemma_lms_views_len(iv0);
    }
    if index.len() == 0 {
        proof {
            assert(rows_views(Seq::<KeyedItem>::empty()) =~= Seq::<SKeyed>::empty());
        }
        let entries = upsert_flat(Vec::new(), flat, namespace, file_path, priority);
        index.push(LangMap { lang: lang.clone(), entries });
        proof {
            assert(index@.drop_last() =~= Seq::<LangMap>::empty());
            assert(lms_views(index@) == lms_views(index@.drop_last()).push(
                lm_view(index@.last()),
            ));
            assert(lms_views(index@.drop_last()) =~= Seq::<SLangMap>::empty());
            assert(lms_views(index@) =~= seq![lm_view(index@.last())]);
        }
        index
    } else {
        let first = index.remove(0);
        proof {
            assert(index@ =~= iv0.drop_first());
            lemma_lms_views_index(iv0, 0);
            assert(lm_view(first) == lms_views(iv0).first());
            lemma_lms_views_drop_first(iv0);
        }
        if first.lang == *lang {
            let entries = upsert_flat(first.entries, flat, namespace, file_path, priority);
            let mut out: Vec<LangMap> = Vec::new();
            out.push(LangMap { lang: lang.clone(), entries });
            proof {
                assert(out@.drop_last() =~= Seq::<LangMap>::empty());
                assert(lms_views(out@) == lms_views(out@.drop_last()).push(lm_view(out@.last())));
                assert(lms_views(out@.drop_last()) =~= Seq::<SLangMap>::empty());
                assert(lms_views(out@) =~= seq![lm_view(out@.last())]);
            }
            append_all(&mut out, index);
            proof {
                assert(lms_views(out@) =~= seq![
                    SLangMap {
                        lang: lang@,
                        entries: sp_upsert_flat(
                            lms_views(iv0).first().entries,
                            fe_views(flat@),
                            namespace@,
                            file_path@,
                            priority,
                        ),
                    },
                ] + lms_views(iv0).drop_first());
            }
            out
        } else {
            let r = insert_items(index, lang, namespace, flat, file_path, priority);
            let mut out: Vec<LangMap> = Vec::new();
            out.push(first);
            proof {
                assert(out@.drop_last() =~= Seq::<LangMap>::empty());
                assert(lms_views(out@) == lms_views(out@.drop_last()).push(lm_view(out@.last())));
                assert(lms_views(out@.drop_last()) =~= Seq::<SLangMap>::empty());
                assert(lms_views(out@) =~= seq![lm_view(out@.last())]);
            }
            append_all(&mut out, r);
            proof {
                assert(lms_views(out@) =~= seq![lms_views(iv0).first()] + sp_insert_items(
                    lms_views(iv0).drop_first(),
                    lang@,
                    fe_views(flat@),
                    namespace@,
                    file_path@,
                    priority,
                ));
            }
            out
        }
    }
}

proof fn lemma_lms_views_drop_first(s: Seq<LangMap>)
    requires
        s.len() > 0,
    ensures
        lms_views(s.drop_first()) =~= lms_views(s).drop_first(),
{
    lemma_lms_views_len(s);
    lemma_lms_views_len(s.drop_first());
    assert forall|j: int| 0 <= j < s.len() - 1 implies lms_views(s.drop_first())[j] == lms_views(
        s,
    ).drop_first()[j] by {
        lemma_lms_views_index(s.drop_first(), j);
        lemma_lms_views_index(s, j + 1);
        assert(s.drop_first()[j] == s[j + 1]);
    }
}

/// Appends every element of `src` to `dst`.
fn append_all(dst: &mut Vec<LangMap>, src: Vec<LangMap>)
    ensures
        final(dst)@ == old(dst)@ + src@,
        lms_views(final(dst)@) == lms_views(old(dst)@) + lms_views(src@),
{
    let mut src = src;
    let ghost d0 = dst@;
    let ghost s0 = src@;
    let ghost mut moved: int = 0;
    proof {
        assert(dst@ =~= d0 + s0.take(0));
        assert(src@ =~= s0.skip(0));
    }
    while src.len() > 0
        invariant
            0 <= moved <= s0.len(),
            dst@ == d0 + s0.take(moved),
            src@ == s0.skip(moved),
        decreases src@.len(),
    {
        let m = src.remove(0);
        dst.push(m);
        proof {
            assert(m == s0[moved]);
            assert(src@ =~= s0.skip(moved + 1));
            assert(dst@ =~= d0 + s0.take(moved + 1));
            moved = moved + 1;
        }
    }
    proof {
        assert(moved == s0.len());
        assert(s0.take(moved) =~= s0);
        lemma_lms_views_concat(d0, s0);
    }
}

proof fn lemma_lms_views_concat(a: Seq<LangMap>, b: Seq<LangMap>)
    ensures
        lms_views(a + b) == lms_views(a) + lms_views(b),
{
    lemma_lms_views_len(a);
    lemma_lms_views_len(b);
    lemma_lms_views_len(a + b);
    assert forall|j: int| 0 <= j < a.len() + b.len() implies lms_views(a + b)[j] == (lms_views(a)
        + lms_views(b))[j] by {
        lemma_lms_views_index(a + b, j);
        if j < a.len() {
            lemma_lms_views_index(a, j);
            assert((a + b)[j] == a[j]);
        } else {
            lemma_lms_views_index(b, j - a.len());
            assert((a + b)[j] == b[j - a.len()]);
        }
    }
    assert(lms_views(a + b) =~= lms_views(a) + lms_views(b));
}

/// One cached index, keyed by the root configuration it was built from.
pub struct CacheRow {
    pub key: String,
    pub result: IndexResult,
}

/// An in-process cache of built indices.
pub struct IndexCache {
    pub entries: Vec<CacheRow>,
}

/// The cached result under `key`: the first row with it.
pub open spec fn sp_cache_get(rows: Seq<CacheRow>, key: Seq<char>) -> Option<IndexResult>
    decreases rows.len(),
{
    if rows.len() == 0 {
        None
    } else if rows.first().key@ == key {
        Some(rows.first().result)
    } else {
        sp_cache_get(rows.drop_first(), key)
    }
}

impl IndexCache {
    /// An empty cache.
    pub fn new() -> (r: IndexCache)
        ensures
            r.entries@.len() == 0,
    {
        IndexCache { entries: Vec::new() }
    }

    /// The cached result under `key`, if one is held.
    pub fn get<'a>(&'a self, key: &String) -> (r: Option<&'a IndexResult>)
        ensures
            match r {
                Some(v) => sp_cache_get(self.entries@, key@) == Some(*v),
                None => sp_cache_get(self.entries@, key@) is None,
            },
    {
        let mut i: usize = 0;
        proof {
            assert(self.entries@.skip(0) =~= self.entries@);
        }
        while i < self.entries.len()
            invariant
                i <= self.entries@.len(),
                sp_cache_get(self.entries@, key@) == sp_cache_get(
                    self.entries@.skip(i as int),
                    key@,
                ),
            decreases self.entries@.len() - i,
        {
            proof {
                assert(self.entries@.skip(i as int).first() == self.entries@[i as int]);
                assert(self.entries@.skip(i as int).drop_first() =~= self.entries@.skip(
                    i as int + 1,
                ));
            }
            if self.entries[i].key == *key {
                return Some(&self.entries[i].result);
            }
            i += 1;
        }
        proof {
            assert(self.entries@.skip(i as int).len() == 0);
        }
        None
    }

    /// Stores `result` under the key of `row`, appended as the newest row;
    /// lookups see it once no earlier row holds the same key.
    pub fn set(&mut self, row: CacheRow)
        ensures
            final(self).entries@ == old(self).entries@.push(row),
    {
        self.entries.push(row);
    }
}

} // verus!
