//! Placeholder extraction from translation values, and flattening of nested
//! resource tables into dot-separated keys.

use vstd::prelude::*;

use crate::hardcoded::lemma_strs_views_index;
use crate::hardcoded::lemma_strs_views_len;
use crate::hardcoded::strs_views;
use crate::json::JsonMember;
use crate::json::JsonValue;
use crate::json::SJson;
use crate::json::jv_view;
use crate::json::jv_view_members;
use crate::json::lemma_jv_view_members_index;
use crate::json::lemma_jv_view_members_len;
use crate::text::chars_to_string;
use crate::text::push_char;
use crate::text::string_chars;

verus! {

// ---------------------------------------------------------------------------
// Placeholders.
// ---------------------------------------------------------------------------

/// Index of the first `}` at or after `i`.
pub open spec fn sp_find_close(s: Seq<char>, i: int) -> Option<int>
    decreases s.len() - i,
{
    if i < 0 || i >= s.len() {
        None
    } else if s[i] == '}' {
        Some(i)
    } else {
        sp_find_close(s, i + 1)
    }
}

/// Index of the first `}}` at or after `i` (the index of its first brace).
pub open spec fn sp_find_close2(s: Seq<char>, i: int) -> Option<int>
    decreases s.len() - i,
{
    if i < 0 || i + 1 >= s.len() {
        None
    } else if s[i] == '}' && s[i + 1] == '}' {
        Some(i)
    } else {
        sp_find_close2(s, i + 1)
    }
}

/// Whether a trimmed placeholder name is usable: nonempty, no space.
pub open spec fn sp_name_ok(n: Seq<char>) -> bool {
    n.len() > 0 && (forall|m: int| 0 <= m < n.len() ==> n[m] != ' ')
}

/// Scans `s` from `pos` for `{name}` and `{{name}}` forms, keeping each
/// usable trimmed name in order of appearance.
pub open spec fn sp_ph_scan(s: Seq<char>, pos: int, acc: Seq<Seq<char>>) -> Seq<Seq<char>>
    decreases s.len() - pos,
{
    if pos < 0 || pos >= s.len() {
        acc
    } else if s[pos] == '{' {
        let double = pos + 1 < s.len() && s[pos + 1] == '{';
        let start = if double {
            pos + 2
        } else {
            pos + 1
        };
        let found = if double {
            sp_find_close2(s, start)
        } else {
            sp_find_close(s, start)
        };
        match found {
            Some(endp) => {
                let name = crate::hardcoded::sp_trim(s.subrange(start, endp));
                let acc2 = if sp_name_ok(name) {
                    acc.push(name)
                } else {
                    acc
                };
                let next0 = if double {
                    endp + 2
                } else {
                    endp + 1
                };
                let next = if next0 > pos {
                    if next0 <= s.len() {
                        next0
                    } else {
                        s.len() as int
                    }
                } else {
                    pos + 1
                };
                sp_ph_scan(s, next, acc2)
            },
            None => sp_ph_scan(s, pos + 1, acc),
        }
    } else {
        sp_ph_scan(s, pos + 1, acc)
    }
}

/// Lexicographic order on names, by code point.
pub open spec fn str_le(a: Seq<char>, b: Seq<char>) -> bool
    decreases a.len(),
{
    if a.len() == 0 {
        true
    } else if b.len() == 0 {
        false
    } else if a.first() == b.first() {
        str_le(a.drop_first(), b.drop_first())
    } else {
        (a.first() as u32) < (b.first() as u32)
    }
}

/// `x` inserted after every name that is at most it, keeping equal names in
/// order.
pub open spec fn sp_str_insert(s: Seq<Seq<char>>, x: Seq<char>) -> Seq<Seq<char>>
    decreases s.len(),
{
    if s.len() == 0 {
        seq![x]
    } else if str_le(s.last(), x) {
        s.push(x)
    } else {
        sp_str_insert(s.drop_last(), x).push(s.last())
    }
}

pub open spec fn sp_str_sort(s: Seq<Seq<char>>) -> Seq<Seq<char>>
    decreases s.len(),
{
    if s.len() == 0 {
        Seq::empty()
    } else {
        sp_str_insert(sp_str_sort(s.drop_last()), s.last())
    }
}

/// Adjacent duplicates removed.
pub open spec fn sp_dedup(s: Seq<Seq<char>>) -> Seq<Seq<char>>
    decreases s.len(),
{
    if s.len() == 0 {
        Seq::empty()
    } else if s.len() == 1 {
        s
    } else if s.last() == s[s.len() - 2] {
        sp_dedup(s.drop_last())
    } else {
        sp_dedup(s.drop_last()).push(s.last())
    }
}

/// The placeholder names of a translation value, in both the single- and
/// the double-brace form, sorted with duplicates removed.
pub open spec fn sp_placeholders(s: Seq<char>) -> Seq<Seq<char>> {
    sp_dedup(sp_str_sort(sp_ph_scan(s, 0, Seq::empty())))
}

fn str_le_exec(a: &String, b: &String) -> (r: bool)
    ensures
        r == str_le(a@, b@),
{
    let ca = string_chars(a);
    let cb = string_chars(b);
    let mut i: usize = 0;
    proof {
        assert(a@.skip(0) =~= a@);
        assert(b@.skip(0) =~= b@);
    }
    while i < ca.len() && i < cb.len()
        invariant
            i <= ca@.len(),
            i <= cb@.len(),
            ca@ == a@,
            cb@ == b@,
            str_le(a@, b@) == str_le(a@.skip(i as int), b@.skip(i as int)),
        decreases ca@.len() - i,
    {
        proof {
            assert(a@.skip(i as int).first() == a@[i as int]);
            assert(b@.skip(i as int).first() == b@[i as int]);
            assert(a@.skip(i as int).drop_first() =~= a@.skip(i as int + 1));
            assert(b@.skip(i as int).drop_first() =~= b@.skip(i as int + 1));
        }
        if ca[i] != cb[i] {
            return (ca[i] as u32) < (cb[i] as u32);
        }
        i += 1;
    }
    proof {
        if i >= ca@.len() {
            assert(a@.skip(i as int).len() == 0);
        } else {
            assert(b@.skip(i as int).len() == 0);
            assert(a@.skip(i as int).len() > 0);
        }
    }
    i >= ca.len()
}

fn str_insert(v: Vec<String>, x: String) -> (r: Vec<String>)
    ensures
        strs_views(r@) == sp_str_insert(strs_views(v@), x@),
    decreases v@.len(),
{
    let ghost v0 = v@;
    let mut v = v;
    proof {
        lemma_strs_views_len(v0);
    }
    if v.len() == 0 {
        v.push(x);
        proof {
            assert(v@.drop_last() =~= v0);
            assert(strs_views(v@) == strs_views(v0).push(x@));
            assert(strs_views(v@) =~= seq![x@]);
        }
        v
    } else {
        let keep = str_le_exec(&v[v.len() - 1], &x);
        proof {
            lemma_strs_views_index(v0, v0.len() - 1);
            assert(v0.last() == v0[v0.len() - 1]);
            assert(strs_views(v0).last() == v0.last()@);
        }
        if keep {
            v.push(x);
            proof {
                assert(v@.drop_last() =~= v0);
                assert(strs_views(v@) == strs_views(v0).push(x@));
            }
            v
        } else {
            let last = v.pop().unwrap();
            proof {
                assert(v@ =~= v0.drop_last());
                assert(strs_views(v0).drop_last() =~= strs_views(v0.drop_last()));
            }
            let mut r = str_insert(v, x);
            let ghost rv = r@;
            r.push(last);
            proof {
                assert(r@.drop_last() =~= rv);
                assert(strs_views(r@) == strs_views(rv).push(last@));
            }
            r
        }
    }
}

/// Extracts the placeholder names of a translation value: both the
/// double-brace and the single-brace form, each name trimmed, names with
/// spaces or nothing in them dropped, the result sorted and deduplicated.
pub fn extract_placeholders(text: &str) -> (r: Vec<String>)
    ensures
        strs_views(r@) == sp_placeholders(text@),
{
    let cs = str_chars_local(text);
    let mut found: Vec<String> = Vec::new();
    let mut pos: usize = 0;
    proof {
        assert(strs_views(Seq::<String>::empty()) =~= Seq::<Seq<char>>::empty());
    }
    while pos < cs.len()
        invariant
            pos <= cs@.len(),
            cs@ == text@,
            sp_ph_scan(text@, 0, Seq::empty()) == sp_ph_scan(
                text@,
                pos as int,
                strs_views(found@),
            ),
        decreases cs@.len() - pos,
    {
        if cs[pos] == '{' {
            let double = pos + 1 < cs.len() && cs[pos + 1] == '{';
            let start = if double {
                pos + 2
            } else {
                pos + 1
            };
            let found_close = if double {
                find_close2(&cs, start)
            } else {
                find_close(&cs, start)
            };
            match found_close {
                Some(endp) => {
                    let mut seg: Vec<char> = Vec::new();
                    let mut k = start;
                    proof {
                        assert(seg@ =~= text@.subrange(start as int, start as int));
                    }
                    while k < endp
                        invariant
                            start <= k <= endp <= cs@.len(),
                            cs@ == text@,
                            seg@ == text@.subrange(start as int, k as int),
                        decreases endp - k,
                    {
                        seg.push(cs[k]);
                        proof {
                            assert(seg@ =~= text@.subrange(start as int, k as int + 1));
                        }
                        k += 1;
                    }
                    let name = crate::hardcoded::trim_chars(&seg);
                    let ok = name_ok(&name);
                    if ok {
                        let ghost oldf = found@;
                        found.push(name);
                        proof {
                            assert(found@.drop_last() =~= oldf);
                            assert(strs_views(found@) == strs_views(oldf).push(
                                found@.last()@,
                            ));
                        }
                    }
                    let next0 = if double {
                        endp + 2
                    } else {
                        endp + 1
                    };
                    pos = if next0 > pos {
                        if next0 <= cs.len() {
                            next0
                        } else {
                            cs.len()
                        }
                    } else {
                        pos + 1
                    };
                },
                None => {
                    pos += 1;
                },
            }
        } else {
            pos += 1;
        }
    }
    proof {
        assert(sp_ph_scan(text@, pos as int, strs_views(found@)) == strs_views(found@));
    }
    // sort
    let mut sorted: Vec<String> = Vec::new();
    let mut i: usize = 0;
    let ghost fv = strs_views(found@);
    proof {
        lemma_strs_views_len(found@);
        assert(strs_views(Seq::<String>::empty()) =~= Seq::<Seq<char>>::empty());
        assert(fv.take(0) =~= Seq::<Seq<char>>::empty());
    }
    while i < found.len()
        invariant
            i <= found@.len(),
            fv == strs_views(found@),
            fv.len() == found@.len(),
            strs_views(sorted@) == sp_str_sort(fv.take(i as int)),
        decreases found@.len() - i,
    {
        proof {
            lemma_strs_views_index(found@, i as int);
            assert(fv.take(i as int + 1).drop_last() =~= fv.take(i as int));
            assert(fv.take(i as int + 1).last() == fv[i as int]);
        }
        let x = found[i].clone();
        sorted = str_insert(sorted, x);
        i += 1;
    }
    proof {
        assert(fv.take(found@.len() as int) =~= fv);
    }
    // dedup adjacent
    let mut out: Vec<String> = Vec::new();
    let mut k: usize = 0;
    let ghost sv = strs_views(sorted@);
    proof {
        lemma_strs_views_len(sorted@);
        assert(strs_views(Seq::<String>::empty()) =~= Seq::<Seq<char>>::empty());
        assert(sv.take(0) =~= Seq::<Seq<char>>::empty());
        assert(sp_dedup(sv.take(0)) =~= Seq::<Seq<char>>::empty());
    }
    while k < sorted.len()
        invariant
            k <= sorted@.len(),
            sv == strs_views(sorted@),
            sv.len() == sorted@.len(),
            strs_views(out@) == sp_dedup(sv.take(k as int)),
        decreases sorted@.len() - k,
    {
        proof {
            lemma_strs_views_index(sorted@, k as int);
            assert(sv.take(k as int + 1).drop_last() =~= sv.take(k as int));
            assert(sv.take(k as int + 1).last() == sv[k as int]);
            if k > 0 {
                lemma_strs_views_index(sorted@, k as int - 1);
                assert(sv.take(k as int + 1)[k as int - 1] == sv[k as int - 1]);
            }
        }
        let dup = k > 0 && sorted[k - 1] == sorted[k];
        if !dup {
            let ghost oldo = out@;
            let x = sorted[k].clone();
            out.push(x);
            proof {
                assert(out@.drop_last() =~= oldo);
                assert(strs_views(out@) == strs_views(oldo).push(out@.last()@));
            }
        }
        k += 1;
    }
    proof {
        assert(sv.take(sorted@.len() as int) =~= sv);
    }
    out
}

/// Whether two placeholder lists are the same names in the same order.
pub fn placeholder_equal(a: &Vec<String>, b: &Vec<String>) -> (r: bool)
    ensures
        r == (strs_views(a@) == strs_views(b@)),
{
    let ghost av = strs_views(a@);
    let ghost bv = strs_views(b@);
    proof {
        lemma_strs_views_len(a@);
        lemma_strs_views_len(b@);
    }
    if a.len() != b.len() {
        proof {
            assert(av.len() != bv.len());
        }
        return false;
    }
    let mut i: usize = 0;
    while i < a.len()
        invariant
            i <= a@.len(),
            a@.len() == b@.len(),
            av == strs_views(a@),
            bv == strs_views(b@),
            av.len() == a@.len(),
            bv.len() == b@.len(),
            forall|m: int| 0 <= m < i ==> av[m] == bv[m],
        decreases a@.len() - i,
    {
        proof {
            lemma_strs_views_index(a@, i as int);
            lemma_strs_views_index(b@, i as int);
        }
        if a[i] != b[i] {
            proof {
                assert(av[i as int] != bv[i as int]);
            }
            return false;
        }
        i += 1;
    }
    proof {
        assert(av =~= bv);
    }
    true
}

fn find_close(cs: &Vec<char>, i: usize) -> (r: Option<usize>)
    requires
        i <= cs@.len(),
    ensures
        match r {
            Some(p) => sp_find_close(cs@, i as int) == Some(p as int) && i <= p < cs@.len(),
            None => sp_find_close(cs@, i as int) is None,
        },
    decreases cs@.len() - i,
{
    if i >= cs.len() {
        None
    } else if cs[i] == '}' {
        Some(i)
    } else {
        find_close(cs, i + 1)
    }
}

fn find_close2(cs: &Vec<char>, i: usize) -> (r: Option<usize>)
    requires
        i <= cs@.len(),
    ensures
        match r {
            Some(p) => sp_find_close2(cs@, i as int) == Some(p as int) && i <= p && p + 1
                < cs@.len(),
            None => sp_find_close2(cs@, i as int) is None,
        },
    decreases cs@.len() - i,
{
    if cs.len() - i < 2 {
        None
    } else if cs[i] == '}' && cs[i + 1] == '}' {
        Some(i)
    } else {
        find_close2(cs, i + 1)
    }
}

fn name_ok(n: &String) -> (r: bool)
    ensures
        r == sp_name_ok(n@),
{
    let cs = string_chars(n);
    if cs.len() == 0 {
        return false;
    }
    let mut i: usize = 0;
    while i < cs.len()
        invariant
            i <= cs@.len(),
            cs@ == n@,
            forall|m: int| 0 <= m < i ==> n@[m] != ' ',
        decreases cs@.len() - i,
    {
        if cs[i] == ' ' {
            return false;
        }
        i += 1;
    }
    true
}

fn str_chars_local(s: &str) -> (r: Vec<char>)
    ensures
        r@ == s@,
{
    crate::text::str_chars(s)
}

// ---------------------------------------------------------------------------
// Flattening.
// ---------------------------------------------------------------------------

/// One flattened resource entry: a dot-separated key and its value's text.
pub struct FlatEntry {
    pub key: String,
    pub value: String,
}

/// Mathematical model of a flattened entry.
pub struct SFlat {
    pub key: Seq<char>,
    pub value: Seq<char>,
}

pub open spec fn fe_view(e: FlatEntry) -> SFlat {
    SFlat { key: e.key@, value: e.value@ }
}

pub open spec fn fe_views(s: Seq<FlatEntry>) -> Seq<SFlat>
    decreases s,
{
    if s.len() == 0 {
        Seq::empty()
    } else {
        fe_views(s.drop_last()).push(fe_view(s.last()))
    }
}

pub broadcast proof fn lemma_fe_views_index(s: Seq<FlatEntry>, i: int)
    requires
        0 <= i < s.len(),
    ensures
        #[trigger] fe_views(s)[i] == fe_view(s[i]),
        fe_views(s).len() == s.len(),
    decreases s,
{
    if s.len() > 0 {
        if i < s.len() - 1 {
            lemma_fe_views_index(s.drop_last(), i);
        } else {
            lemma_fe_views_len(s.drop_last());
        }
    }
}

pub broadcast proof fn lemma_fe_views_len(s: Seq<FlatEntry>)
    ensures
        #[trigger] fe_views(s).len() == s.len(),
    decreases s,
{
    if s.len() > 0 {
        lemma_fe_views_len(s.drop_last());
    }
}

/// The text a leaf value contributes: a string's content; a number's raw
/// text; `true`, `false` or `null`.  Arrays and objects are no leaves.
pub open spec fn sp_leaf_text(j: SJson) -> Option<Seq<char>> {
    match j {
        SJson::Str(s) => Some(s),
        SJson::Num(raw) => Some(raw),
        SJson::Bool(b) => if b {
            Some("true"@)
        } else {
            Some("false"@)
        },
        SJson::Null => Some("null"@),
        _ => None,
    }
}

/// The flattened entries of `j` under `prefix`, in document order: nested
/// objects extend the key with a dot, leaves emit their text.  Array values
/// are not indexed.
pub open spec fn sp_flatten(j: SJson, prefix: Seq<char>, acc: Seq<SFlat>) -> Seq<SFlat>
    decreases j, 0int,
{
    match j {
        SJson::Obj(ms) => sp_flatten_members(ms, prefix, acc),
        _ => match sp_leaf_text(j) {
            Some(v) => acc.push(SFlat { key: prefix, value: v }),
            None => acc,
        },
    }
}

pub open spec fn sp_flatten_members(
    ms: Seq<(Seq<char>, SJson)>,
    prefix: Seq<char>,
    acc: Seq<SFlat>,
) -> Seq<SFlat>
    decreases ms, 1int,
{
    if ms.len() == 0 {
        acc
    } else {
        let (k, v) = ms.first();
        let child_prefix = if prefix.len() == 0 {
            k
        } else {
            prefix + "."@ + k
        };
        sp_flatten_members(ms.drop_first(), prefix, sp_flatten(v, child_prefix, acc))
    }
}

/// Flattens a nested resource table into dot-separated keys, in document
/// order.
pub fn flatten_table(value: &JsonValue, prefix: &str) -> (r: Vec<FlatEntry>)
    ensures
        fe_views(r@) == sp_flatten(value@, prefix@, Seq::empty()),
{
    proof {
        assert(fe_views(Seq::<FlatEntry>::empty()) =~= Seq::<SFlat>::empty());
    }
    let p = String::from_str(prefix);
    flatten_rec(value, &p, Vec::new())
}

fn flatten_rec(value: &JsonValue, prefix: &String, acc: Vec<FlatEntry>) -> (r: Vec<FlatEntry>)
    ensures
        fe_views(r@) == sp_flatten(value@, prefix@, fe_views(acc@)),
    decreases *value, 0int,
{
    let mut acc = acc;
    match value {
        JsonValue::Obj(ms) => {
            let ghost acc0 = fe_views(acc@);
            let ghost msv = jv_view_members(ms@);
            let mut i: usize = 0;
            proof {
                lemma_jv_view_members_len(ms@);
                assert(msv.skip(0) =~= msv);
            }
            while i < ms.len()
                invariant
                    i <= ms@.len(),
                    msv == jv_view_members(ms@),
                    msv.len() == ms@.len(),
                    decreases_to!(*value => *ms),
                    sp_flatten_members(msv, prefix@, acc0) == sp_flatten_members(
                        msv.skip(i as int),
                        prefix@,
                        fe_views(acc@),
                    ),
                decreases ms@.len() - i,
            {
                proof {
                    lemma_jv_view_members_index(ms@, i as int);
                    assert(msv.skip(i as int).first() == msv[i as int]);
                    assert(msv.skip(i as int).drop_first() =~= msv.skip(i as int + 1));
                    assert(decreases_to!(*ms => ms@[i as int]));
                    assert(decreases_to!(*ms => ms@[i as int].value));
                }
                let m = &ms[i];
                let kstr = chars_to_string(m.key.as_slice());
                let child_prefix: String = if prefix.unicode_len() == 0 {
                    kstr
                } else {
                    let mut cp = prefix.clone();
                    proof {
                        reveal_strlit(".");
                    }
                    push_char(&mut cp, '.');
                    proof {
                        assert(cp@ =~= prefix@ + "."@);
                    }
                    cp.append(kstr.as_str());
                    cp
                };
                acc = flatten_rec(&m.value, &child_prefix, acc);
                i += 1;
            }
            proof {
                assert(msv.skip(i as int).len() == 0);
            }
            acc
        },
        JsonValue::Str(cs) => {
            let ghost olda = acc@;
            let v = chars_to_string(cs.as_slice());
            acc.push(FlatEntry { key: prefix.clone(), value: v });
            proof {
                assert(acc@.drop_last() =~= olda);
                assert(fe_views(acc@) == fe_views(olda).push(fe_view(acc@.last())));
            }
            acc
        },
        JsonValue::Num(raw) => {
            let ghost olda = acc@;
            let v = chars_to_string(raw.as_slice());
            acc.push(FlatEntry { key: prefix.clone(), value: v });
            proof {
                assert(acc@.drop_last() =~= olda);
                assert(fe_views(acc@) == fe_views(olda).push(fe_view(acc@.last())));
            }
            acc
        },
        JsonValue::Bool(b) => {
            let ghost olda = acc@;
            let v = if *b {
                String::from_str("true")
            } else {
                String::from_str("false")
            };
            acc.push(FlatEntry { key: prefix.clone(), value: v });
            proof {
                assert(acc@.drop_last() =~= olda);
                assert(fe_views(acc@) == fe_views(olda).push(fe_view(acc@.last())));
            }
            acc
        },
        JsonValue::Null => {
            let ghost olda = acc@;
            let v = String::from_str("null");
            acc.push(FlatEntry { key: prefix.clone(), value: v });
            proof {
                assert(acc@.drop_last() =~= olda);
                assert(fe_views(acc@) == fe_views(olda).push(fe_view(acc@.last())));
            }
            acc
        },
        JsonValue::Arr(items) => acc,
    }
}

/// The value of the first entry with this key.
pub open spec fn sp_flat_get(s: Seq<SFlat>, key: Seq<char>) -> Option<Seq<char>>
    decreases s.len(),
{
    if s.len() == 0 {
        None
    } else if s.first().key == key {
        Some(s.first().value)
    } else {
        sp_flat_get(s.drop_first(), key)
    }
}

/// Looks a flattened key up, first entry winning.
pub fn flat_get<'a>(entries: &'a Vec<FlatEntry>, key: &str) -> (r: Option<&'a String>)
    ensures
        match r {
            Some(v) => sp_flat_get(fe_views(entries@), key@) == Some(v@),
            None => sp_flat_get(fe_views(entries@), key@) is None,
        },
{
    let k = String::from_str(key);
    let mut i: usize = 0;
    proof {
        lemma_fe_views_len(entries@);
        assert(fe_views(entries@).skip(0) =~= fe_views(entries@));
    }
    while i < entries.len()
        invariant
            i <= entries@.len(),
            fe_views(entries@).len() == entries@.len(),
            k@ == key@,
            sp_flat_get(fe_views(entries@), key@) == sp_flat_get(
                fe_views(entries@).skip(i as int),
                key@,
            ),
        decreases entries@.len() - i,
    {
        proof {
            lemma_fe_views_index(entries@, i as int);
            assert(fe_views(entries@).skip(i as int).first() == fe_views(entries@)[i as int]);
            assert(fe_views(entries@).skip(i as int).drop_first() =~= fe_views(entries@).skip(
                i as int + 1,
            ));
        }
        if entries[i].key == k {
            return Some(&entries[i].value);
        }
        i += 1;
    }
    proof {
        assert(fe_views(entries@).skip(i as int).len() == 0);
    }
    None
}

} // verus!
