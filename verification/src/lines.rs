//! Conversion of the external parser's byte offsets into 0-indexed lines and
//! UTF-16 display columns over the source text.

use vstd::prelude::*;

use crate::ast::Span;
use crate::json::SJson;
use crate::json::sp_get;
use crate::text::spec_utf16_len;
use crate::text::spec_utf8_len;
use crate::text::utf16_len;
use crate::text::utf8_len;

verus! {

/// Walks the source from character `k` (at byte offset `byte`, location
/// `line`/`col`) up to byte offset `b`, and returns the location there.
pub open spec fn sp_loc_from(
    src: Seq<char>,
    k: int,
    byte: int,
    b: int,
    line: int,
    col: int,
) -> (int, int)
    decreases src.len() - k,
{
    if k < 0 || k >= src.len() || byte >= b {
        (line, col)
    } else {
        let c = src[k];
        if c == '\n' {
            sp_loc_from(src, k + 1, byte + spec_utf8_len(c), b, line + 1, 0)
        } else {
            sp_loc_from(src, k + 1, byte + spec_utf8_len(c), b, line, col + spec_utf16_len(c))
        }
    }
}

/// The 0-indexed line and UTF-16 column of byte offset `b` in `src`.
pub open spec fn sp_loc(src: Seq<char>, b: int) -> (int, int) {
    sp_loc_from(src, 0, 0, b, 0, 0)
}

/// Source text prepared for location queries: its characters, and the byte
/// offset the external parser assigned to its first byte.
pub struct LineIndex {
    pub chars: Vec<char>,
    pub base: u32,
}

impl LineIndex {
    /// Short enough that every line and column fits the result type.
    pub open spec fn wf(&self) -> bool {
        self.chars@.len() < 0x4000_0000
    }

    /// The location of byte offset `b` (absolute, as the parser reports it).
    pub open spec fn spec_loc(&self, b: int) -> (int, int) {
        sp_loc(self.chars@, b - self.base)
    }

    pub fn loc(&self, b: u32) -> (r: (u32, u32))
        requires
            self.wf(),
        ensures
            (r.0 as int, r.1 as int) == self.spec_loc(b as int),
    {
        let target: u64 = if b >= self.base {
            (b - self.base) as u64
        } else {
            0
        };
        let ghost bi = b as int - self.base as int;
        let mut k: usize = 0;
        let mut byte: u64 = 0;
        let mut line: u32 = 0;
        let mut col: u32 = 0;
        while k < self.chars.len() && byte < target
            invariant
                self.wf(),
                k <= self.chars@.len(),
                byte <= 4 * k,
                line <= k,
                col <= 2 * k,
                sp_loc_from(self.chars@, 0, 0, target as int, 0, 0) == sp_loc_from(
                    self.chars@,
                    k as int,
                    byte as int,
                    target as int,
                    line as int,
                    col as int,
                ),
            decreases self.chars@.len() - k,
        {
            let c = self.chars[k];
            byte = byte + utf8_len(c) as u64;
            if c == '\n' {
                line = line + 1;
                col = 0;
            } else {
                col = col + utf16_len(c) as u32;
            }
            k = k + 1;
        }
        proof {
            assert(sp_loc_from(
                self.chars@,
                k as int,
                byte as int,
                target as int,
                line as int,
                col as int,
            ) == (line as int, col as int));
            assert(sp_loc_from(self.chars@, 0, 0, bi, 0, 0) == sp_loc_from(
                self.chars@,
                0,
                0,
                target as int,
                0,
                0,
            ));
        }
        (line, col)
    }
}

/// Value of a decimal digit run, read from the front, saturating at the
/// largest `u32`; text that does not begin with a digit has value 0.
pub open spec fn sp_dec_val(s: Seq<char>, acc: int) -> int
    decreases s.len(),
{
    if s.len() == 0 {
        acc
    } else if '0' <= s[0] && s[0] <= '9' {
        let d = s[0] as u32 - '0' as u32;
        let acc2 = if acc * 10 + d > 0xFFFF_FFFF {
            0xFFFF_FFFF as int
        } else {
            acc * 10 + d
        };
        sp_dec_val(s.drop_first(), acc2)
    } else {
        acc
    }
}

pub fn dec_val(s: &[char]) -> (r: u32)
    ensures
        r as int == sp_dec_val(s@, 0),
{
    let mut k: usize = 0;
    let mut acc: u32 = 0;
    proof {
        assert(s@.subrange(0, s@.len() as int) =~= s@);
    }
    while k < s.len() && '0' <= s[k] && s[k] <= '9'
        invariant
            k <= s@.len(),
            sp_dec_val(s@, 0) == sp_dec_val(s@.subrange(k as int, s@.len() as int), acc as int),
        decreases s@.len() - k,
    {
        let ghost pre = s@.subrange(k as int, s@.len() as int);
        let d = s[k] as u32 - '0' as u32;
        let t: u64 = acc as u64 * 10 + d as u64;
        if t > 0xFFFF_FFFF {
            acc = 0xFFFF_FFFF;
        } else {
            acc = t as u32;
        }
        proof {
            assert(pre.drop_first() =~= s@.subrange((k + 1) as int, s@.len() as int));
            assert(pre[0] == s@[k as int]);
        }
        k = k + 1;
    }
    proof {
        let post = s@.subrange(k as int, s@.len() as int);
        if post.len() > 0 {
            assert(post[0] == s@[k as int]);
        }
        assert(sp_dec_val(post, acc as int) == acc as int);
    }
    acc
}

/// The number held by field `key` of object `j`, saturating at `u32`'s
/// largest value; 0 when the field is missing or not a number.
pub open spec fn sp_num_field(j: SJson, key: Seq<char>) -> int {
    match j {
        SJson::Obj(ms) => match sp_get(ms, key) {
            Some(SJson::Num(raw)) => sp_dec_val(raw, 0),
            _ => 0,
        },
        _ => 0,
    }
}

/// The source range of the node `j`, read from its `span` field: byte
/// offsets `start`/`end`, converted to line/column locations over the
/// source `src`, whose first byte the parser numbered `base`.
pub open spec fn sp_span_of(j: SJson, src: Seq<char>, base: u32) -> Span {
    let sp = match j {
        SJson::Obj(ms) => match sp_get(ms, "span"@) {
            Some(s) => s,
            _ => SJson::Null,
        },
        _ => SJson::Null,
    };
    let lo = sp_num_field(sp, "start"@);
    let hi = sp_num_field(sp, "end"@);
    let (sl, sc) = sp_loc(src, lo - base);
    let (el, ec) = sp_loc(src, hi - base);
    Span {
        start_line: sl as u32,
        start_col: sc as u32,
        end_line: el as u32,
        end_col: ec as u32,
    }
}

} // verus!
