//! Recursive-descent parser for the language: lexical primitives,
//! sub-grammar parsers, component declarations, and the per-file unit
//! tree.
//!
//! Every parser takes the input bytes and a start position and returns
//! either the position after what it consumed together with the parsed
//! value, or a [`ParseError`]. A `Syntax` error is recoverable: among
//! ordered alternatives the caller tries the next one. A `Fail` error
//! carries a semantic fault and aborts the enclosing file's parse.

pub mod aspect;
pub mod card;
pub mod deck;
pub mod ending;
pub mod verb;

use vstd::prelude::*;
use crate::errors::ParseError;
use crate::lantern::DefKey;
use crate::lantern::Probability;
use crate::lantern::is_digit;
use crate::lantern::is_key_byte;
use crate::lantern::is_upper;
use crate::lantern::valid_key;
use crate::lantern::XtriggerV;

verus! {

broadcast use vstd::std_specs::vec::axiom_vec_index_decreases;

/// Whitespace skipped freely between tokens: space, tab, CR, LF.
pub open spec fn is_space(b: u8) -> bool {
    b == 0x20 || b == 0x09 || b == 0x0d || b == 0x0a
}

/// Horizontal whitespace only: space and tab.
pub open spec fn is_inline_space(b: u8) -> bool {
    b == 0x20 || b == 0x09
}

/// ASCII lower-casing of one byte.
pub open spec fn to_lower(b: u8) -> u8 {
    if is_upper(b) {
        (b + 0x20) as u8
    } else {
        b
    }
}

/// Exec mirror of [`to_lower`].
pub fn lower_byte(b: u8) -> (r: u8)
    ensures
        r == to_lower(b),
{
    if 0x41 <= b && b <= 0x5a {
        b + 0x20
    } else {
        b
    }
}

/// The end of the maximal run of identifier bytes starting at `i`.
pub open spec fn key_run_end(s: Seq<u8>, i: int) -> int
    decreases s.len() - i when 0 <= i <= s.len()
{
    if i < s.len() && is_key_byte(s[i]) {
        key_run_end(s, i + 1)
    } else {
        i
    }
}

pub proof fn lemma_key_run(s: Seq<u8>, i: int)
    requires
        0 <= i <= s.len(),
    ensures
        i <= key_run_end(s, i) <= s.len(),
        forall|k: int| i <= k < key_run_end(s, i) ==> is_key_byte(#[trigger] s[k]),
        key_run_end(s, i) == s.len() || !is_key_byte(s[key_run_end(s, i)]),
    decreases s.len() - i,
{
    if i < s.len() && is_key_byte(s[i]) {
        lemma_key_run(s, i + 1);
    }
}

/// The end of the maximal run of digits starting at `i`.
pub open spec fn digit_run_end(s: Seq<u8>, i: int) -> int
    decreases s.len() - i when 0 <= i <= s.len()
{
    if i < s.len() && is_digit(s[i]) {
        digit_run_end(s, i + 1)
    } else {
        i
    }
}

pub proof fn lemma_digit_run(s: Seq<u8>, i: int)
    requires
        0 <= i <= s.len(),
    ensures
        i <= digit_run_end(s, i) <= s.len(),
        forall|k: int| i <= k < digit_run_end(s, i) ==> is_digit(#[trigger] s[k]),
        digit_run_end(s, i) == s.len() || !is_digit(s[digit_run_end(s, i)]),
    decreases s.len() - i,
{
    if i < s.len() && is_digit(s[i]) {
        lemma_digit_run(s, i + 1);
    }
}

/// The value of a digit string, most significant digit first.
pub open spec fn dec_val(s: Seq<u8>) -> nat
    decreases s.len(),
{
    if s.len() == 0 {
        0
    } else {
        dec_val(s.drop_last()) * 10 + (if s.last() >= 0x30 {
            (s.last() - 0x30) as nat
        } else {
            0
        })
    }
}

/// Appending one digit multiplies the value by ten and adds the digit.
pub proof fn lemma_dec_val_step(s: Seq<u8>, i: int, k: int)
    requires
        0 <= i <= k < s.len(),
        s[k] >= 0x30,
    ensures
        dec_val(s.subrange(i, k + 1)) == dec_val(s.subrange(i, k)) * 10 + (s[k] - 0x30),
{
    let t = s.subrange(i, k + 1);
    assert(t.drop_last() =~= s.subrange(i, k));
    assert(t.last() == s[k]);
}

/// The value of a digit run only grows as the run extends.
pub proof fn lemma_dec_val_mono(s: Seq<u8>, i: int, k: int, j: int)
    requires
        0 <= i <= k <= j <= s.len(),
        forall|m: int| i <= m < j ==> is_digit(#[trigger] s[m]),
    ensures
        dec_val(s.subrange(i, k)) <= dec_val(s.subrange(i, j)),
    decreases j - k,
{
    if k < j {
        lemma_dec_val_step(s, i, k);
        assert(dec_val(s.subrange(i, k + 1)) >= dec_val(s.subrange(i, k))) by {
            assert(dec_val(s.subrange(i, k)) * 10 >= dec_val(s.subrange(i, k)))
                by (nonlinear_arith);
        }
        lemma_dec_val_mono(s, i, k + 1, j);
    }
}

/// The end of a `//` comment's text: the next line break, or the end
/// of input. The break itself is not part of the comment.
pub open spec fn line_comment_end(s: Seq<u8>, i: int) -> int
    decreases s.len() - i when 0 <= i <= s.len()
{
    if i < s.len() && s[i] != 0x0a && s[i] != 0x0d {
        line_comment_end(s, i + 1)
    } else {
        i
    }
}

pub proof fn lemma_line_comment_end(s: Seq<u8>, i: int)
    requires
        0 <= i <= s.len(),
    ensures
        i <= line_comment_end(s, i) <= s.len(),
    decreases s.len() - i,
{
    if i < s.len() && s[i] != 0x0a && s[i] != 0x0d {
        lemma_line_comment_end(s, i + 1);
    }
}

/// The first position at or past `i` where `*)` stands, if any.
pub open spec fn block_close(s: Seq<u8>, i: int) -> Option<int>
    decreases s.len() - i when 0 <= i <= s.len()
{
    if i + 1 >= s.len() {
        None
    } else if s[i] == 0x2a && s[i + 1] == 0x29 {
        Some(i)
    } else {
        block_close(s, i + 1)
    }
}

pub proof fn lemma_block_close(s: Seq<u8>, i: int)
    requires
        0 <= i <= s.len(),
    ensures
        block_close(s, i) matches Some(j) ==> i <= j && j + 2 <= s.len(),
    decreases s.len() - i,
{
    if i + 1 < s.len() && !(s[i] == 0x2a && s[i + 1] == 0x29) {
        lemma_block_close(s, i + 1);
    }
}

/// Where token-level whitespace skipping ends: past any run of
/// whitespace, `// ...` comments (their line break kept), and closed
/// `(* ... *)` comments. An unterminated block comment is not skipped.
pub open spec fn ws_scan(s: Seq<u8>, i: int) -> int
    decreases s.len() - i when 0 <= i <= s.len()
        via ws_scan_decreases
{
    if i >= s.len() {
        i
    } else if is_space(s[i]) {
        ws_scan(s, i + 1)
    } else if s[i] == 0x2f && i + 1 < s.len() && s[i + 1] == 0x2f {
        ws_scan(s, line_comment_end(s, i + 2))
    } else if s[i] == 0x28 && i + 1 < s.len() && s[i + 1] == 0x2a {
        match block_close(s, i + 2) {
            Some(j) => ws_scan(s, j + 2),
            None => i,
        }
    } else {
        i
    }
}

#[via_fn]
proof fn ws_scan_decreases(s: Seq<u8>, i: int) {
    if 0 <= i < s.len() {
        if s[i] == 0x2f && i + 1 < s.len() && s[i + 1] == 0x2f {
            lemma_line_comment_end(s, i + 2);
        } else if s[i] == 0x28 && i + 1 < s.len() && s[i + 1] == 0x2a {
            lemma_block_close(s, i + 2);
        }
    }
}

pub proof fn lemma_ws_scan(s: Seq<u8>, i: int)
    requires
        0 <= i <= s.len(),
    ensures
        i <= ws_scan(s, i) <= s.len(),
        ws_scan(s, i) == s.len() || !is_space(s[ws_scan(s, i)]),
    decreases s.len() - i,
{
    if i < s.len() {
        if is_space(s[i]) {
            lemma_ws_scan(s, i + 1);
        } else if s[i] == 0x2f && i + 1 < s.len() && s[i + 1] == 0x2f {
            lemma_line_comment_end(s, i + 2);
            lemma_ws_scan(s, line_comment_end(s, i + 2));
        } else if s[i] == 0x28 && i + 1 < s.len() && s[i + 1] == 0x2a {
            match block_close(s, i + 2) {
                Some(j) => {
                    lemma_block_close(s, i + 2);
                    lemma_ws_scan(s, j + 2);
                },
                None => {},
            }
        }
    }
}

/// Skip whitespace and comments (`// ...` to the line break and
/// `(* ... *)`) between tokens, exactly as [`ws_scan`] describes. An
/// unterminated block comment is not skipped; the `(` stays put and
/// fails a later token.
pub fn skip_ws(s: &[u8], i: usize) -> (j: usize)
    requires
        i <= s@.len(),
    ensures
        i <= j <= s@.len(),
        j == ws_scan(s@, i as int),
{
    proof {
        lemma_ws_scan(s@, i as int);
    }
    let n: usize = s.len();
    let mut cur: usize = i;
    loop
        invariant
            i <= cur <= n,
            n == s@.len(),
            ws_scan(s@, i as int) == ws_scan(s@, cur as int),
        decreases n - cur,
    {
        if cur < n && (s[cur] == 0x20 || s[cur] == 0x09 || s[cur] == 0x0d || s[cur] == 0x0a) {
            cur = cur + 1;
        } else if cur < n && s[cur] == 0x2f && cur + 1 < n && s[cur + 1] == 0x2f {
            // line comment: skip to the line break, which stays put
            let mut k: usize = cur + 2;
            while k < n && s[k] != 0x0a && s[k] != 0x0d
                invariant
                    cur + 2 <= k <= n,
                    n == s@.len(),
                    line_comment_end(s@, cur + 2) == line_comment_end(s@, k as int),
                decreases n - k,
            {
                k = k + 1;
            }
            assert(line_comment_end(s@, k as int) == k);
            cur = k;
        } else if cur < n && s[cur] == 0x28 && cur + 1 < n && s[cur + 1] == 0x2a {
            // block comment: skip past the closing `*)` if there is one
            let mut k: usize = cur + 2;
            let mut closed: bool = false;
            let mut close_at: usize = 0;
            while k < n && !closed
                invariant
                    cur + 2 <= k <= n,
                    n == s@.len(),
                    block_close(s@, cur + 2) == block_close(s@, k as int),
                    closed ==> cur + 2 <= close_at && close_at + 2 <= n && block_close(
                        s@,
                        k as int,
                    ) == Some(close_at as int),
                decreases n - k + (if closed {
                    0int
                } else {
                    1int
                }),
            {
                if k + 1 < n && s[k] == 0x2a && s[k + 1] == 0x29 {
                    closed = true;
                    close_at = k;
                } else {
                    k = k + 1;
                }
            }
            if closed {
                cur = close_at + 2;
            } else {
                // unterminated: stop skipping here
                assert(block_close(s@, k as int) is None);
                return cur;
            }
        } else {
            return cur;
        }
    }
}

/// The end of the run of horizontal whitespace at `i`.
pub open spec fn inline_end(s: Seq<u8>, i: int) -> int
    decreases s.len() - i when 0 <= i <= s.len()
{
    if i < s.len() && is_inline_space(s[i]) {
        inline_end(s, i + 1)
    } else {
        i
    }
}

/// Skip horizontal whitespace only.
pub fn skip_inline(s: &[u8], i: usize) -> (j: usize)
    requires
        i <= s@.len(),
    ensures
        i <= j <= s@.len(),
        j == inline_end(s@, i as int),
        j == s@.len() || !is_inline_space(s@[j as int]),
{
    let n: usize = s.len();
    let mut cur: usize = i;
    while cur < n && (s[cur] == 0x20 || s[cur] == 0x09)
        invariant
            i <= cur <= n,
            n == s@.len(),
            inline_end(s@, i as int) == inline_end(s@, cur as int),
        decreases n - cur,
    {
        cur = cur + 1;
    }
    assert(inline_end(s@, cur as int) == cur);
    cur
}

/// Match one exact byte at `i`.
pub fn p_byte(s: &[u8], i: usize, b: u8) -> (r: Result<usize, ParseError>)
    requires
        i <= s@.len(),
    ensures
        r is Ok <==> (i < s@.len() && s@[i as int] == b),
        r matches Ok(j) ==> j == i + 1,
        r matches Err(e) ==> e == (ParseError::Syntax { pos: i }),
{
    if i < s.len() && s[i] == b {
        Ok(i + 1)
    } else {
        Err(ParseError::Syntax { pos: i })
    }
}

/// Case-insensitive match of `t` at `i` (ASCII folding, as the
/// language's keywords are ASCII).
pub open spec fn tag_nc_matches(s: Seq<u8>, i: int, t: Seq<u8>) -> bool {
    i + t.len() <= s.len() && forall|k: int|
        0 <= k < t.len() ==> to_lower(s[i + k]) == to_lower(#[trigger] t[k])
}

pub fn p_tag_nc(s: &[u8], i: usize, t: &[u8]) -> (r: Result<usize, ParseError>)
    requires
        i <= s@.len(),
    ensures
        r is Ok <==> tag_nc_matches(s@, i as int, t@),
        r matches Ok(j) ==> j == i + t@.len(),
        r matches Err(e) ==> e == (ParseError::Syntax { pos: i }),
{
    let m: usize = t.len();
    let n: usize = s.len();
    if n - i < m {
        assert(!tag_nc_matches(s@, i as int, t@));
        return Err(ParseError::Syntax { pos: i });
    }
    let mut k: usize = 0;
    while k < m
        invariant
            0 <= k <= m,
            m == t@.len(),
            n == s@.len(),
            i + m <= n,
            forall|q: int| 0 <= q < k ==> to_lower(s@[i + q]) == to_lower(#[trigger] t@[q]),
        decreases m - k,
    {
        if lower_byte(s[i + k]) != lower_byte(t[k]) {
            return Err(ParseError::Syntax { pos: i });
        }
        k = k + 1;
    }
    Ok(i + m)
}

/// Case-sensitive match of `t` at `i`.
pub open spec fn tag_matches(s: Seq<u8>, i: int, t: Seq<u8>) -> bool {
    i + t.len() <= s.len() && forall|k: int| 0 <= k < t.len() ==> s[i + k] == #[trigger] t[k]
}

pub fn p_tag(s: &[u8], i: usize, t: &[u8]) -> (r: Result<usize, ParseError>)
    requires
        i <= s@.len(),
    ensures
        r is Ok <==> tag_matches(s@, i as int, t@),
        r matches Ok(j) ==> j == i + t@.len(),
        r matches Err(e) ==> e == (ParseError::Syntax { pos: i }),
{
    let m: usize = t.len();
    let n: usize = s.len();
    if n - i < m {
        assert(!tag_matches(s@, i as int, t@));
        return Err(ParseError::Syntax { pos: i });
    }
    let mut k: usize = 0;
    while k < m
        invariant
            0 <= k <= m,
            m == t@.len(),
            n == s@.len(),
            i + m <= n,
            forall|q: int| 0 <= q < k ==> s@[i + q] == #[trigger] t@[q],
        decreases m - k,
    {
        if s[i + k] != t[k] {
            return Err(ParseError::Syntax { pos: i });
        }
        k = k + 1;
    }
    Ok(i + m)
}

/// Parse an identifier: the maximal non-empty run of identifier bytes
/// at `i`, exactly as written.
pub fn p_key(s: &[u8], i: usize) -> (r: Result<(usize, DefKey), ParseError>)
    requires
        i <= s@.len(),
    ensures
        r is Ok <==> (i < s@.len() && is_key_byte(s@[i as int])),
        r matches Ok((j, k)) ==> {
            &&& i < j <= s@.len()
            &&& j == key_run_end(s@, i as int)
            &&& k@ == s@.subrange(i as int, j as int)
            &&& k.wf()
        },
        r matches Err(e) ==> e == (ParseError::Syntax { pos: i }),
{
    let n: usize = s.len();
    if i >= n || !(is_key_byte_exec(s[i])) {
        return Err(ParseError::Syntax { pos: i });
    }
    let mut cur: usize = i;
    while cur < n && is_key_byte_exec(s[cur])
        invariant
            i <= cur <= n,
            n == s@.len(),
            key_run_end(s@, i as int) == key_run_end(s@, cur as int),
            forall|k: int| i <= k < cur ==> is_key_byte(#[trigger] s@[k]),
        decreases n - cur,
    {
        cur = cur + 1;
    }
    assert(key_run_end(s@, cur as int) == cur);
    let mut out: Vec<u8> = Vec::new();
    let mut k: usize = i;
    while k < cur
        invariant
            i <= k <= cur <= n,
            n == s@.len(),
            out@ =~= s@.subrange(i as int, k as int),
        decreases cur - k,
    {
        out.push(s[k]);
        assert(out@ =~= s@.subrange(i as int, k + 1 as int));
        k = k + 1;
    }
    let key = DefKey(out);
    proof {
        lemma_key_run(s@, i as int);
        assert(valid_key(key@));
    }
    Ok((cur, key))
}

/// Exec mirror of [`is_key_byte`].
pub fn is_key_byte_exec(b: u8) -> (r: bool)
    ensures
        r == is_key_byte(b),
{
    (0x61 <= b && b <= 0x7a) || (0x41 <= b && b <= 0x5a) || (0x30 <= b && b <= 0x39)
        || b == 0x5f || b == 0x2d || b == 0x24 || b == 0x2e
}

/// Parse an unsigned decimal number at `i`: the maximal digit run,
/// whose value must fit in `u32`.
pub fn p_u32(s: &[u8], i: usize) -> (r: Result<(usize, u32), ParseError>)
    requires
        i <= s@.len(),
    ensures
        r is Ok <==> (i < s@.len() && is_digit(s@[i as int]) && dec_val(
            s@.subrange(i as int, digit_run_end(s@, i as int)),
        ) <= u32::MAX),
        r matches Ok((j, v)) ==> {
            &&& j == digit_run_end(s@, i as int)
            &&& i < j <= s@.len()
            &&& v == dec_val(s@.subrange(i as int, j as int))
        },
        r matches Err(e) ==> e == (ParseError::Syntax { pos: i }),
{
    let n: usize = s.len();
    if i >= n || s[i] < 0x30 || s[i] > 0x39 {
        return Err(ParseError::Syntax { pos: i });
    }
    proof {
        lemma_digit_run(s@, i as int);
    }
    let ghost end = digit_run_end(s@, i as int);
    let mut cur: usize = i;
    let mut acc: u32 = 0;
    while cur < n && s[cur] >= 0x30 && s[cur] <= 0x39
        invariant
            i <= cur <= n,
            n == s@.len(),
            digit_run_end(s@, i as int) == digit_run_end(s@, cur as int),
            end == digit_run_end(s@, i as int),
            i <= cur <= end <= n,
            forall|k: int| i <= k < end ==> is_digit(#[trigger] s@[k]),
            acc == dec_val(s@.subrange(i as int, cur as int)),
        decreases n - cur,
    {
        let d: u8 = s[cur] - 0x30;
        proof {
            lemma_dec_val_step(s@, i as int, cur as int);
            lemma_digit_run(s@, cur + 1);
            assert(cur + 1 <= end);
        }
        if acc > (u32::MAX - (d as u32)) / 10 {
            proof {
                assert(acc * 10 + d > u32::MAX) by (nonlinear_arith)
                    requires
                        acc > (u32::MAX - (d as u32)) / 10,
                        d <= 9,
                ;
                lemma_dec_val_mono(s@, i as int, cur + 1, end);
                assert(dec_val(s@.subrange(i as int, end)) > u32::MAX);
            }
            return Err(ParseError::Syntax { pos: i });
        }
        acc = acc * 10 + (d as u32);
        cur = cur + 1;
    }
    assert(digit_run_end(s@, cur as int) == cur);
    Ok((cur, acc))
}

/// Parse a signed decimal number at `i`: an optional `-`, then the
/// maximal digit run; the value must fit in `i32`.
pub fn p_i32(s: &[u8], i: usize) -> (r: Result<(usize, i32), ParseError>)
    requires
        i <= s@.len(),
    ensures
        r is Ok <==> i32_at(s@, i as int) is Some,
        r matches Ok((j, v)) ==> i32_at(s@, i as int) == Some((j as int, v)) && i < j
            <= s@.len(),
        r matches Err(e) ==> e == (ParseError::Syntax { pos: i }),
{
    let n: usize = s.len();
    if i < n && s[i] == 0x2d {
        match p_u32(s, i + 1) {
            Ok((j, mag)) => {
                if mag <= 0x8000_0000u32 {
                    let v: i32 = if mag == 0x8000_0000u32 {
                        i32::MIN
                    } else {
                        -(mag as i32)
                    };
                    Ok((j, v))
                } else {
                    Err(ParseError::Syntax { pos: i })
                }
            },
            Err(_) => Err(ParseError::Syntax { pos: i }),
        }
    } else {
        match p_u32(s, i) {
            Ok((j, mag)) => {
                if mag <= 0x7fff_ffffu32 {
                    Ok((j, mag as i32))
                } else {
                    Err(ParseError::Syntax { pos: i })
                }
            },
            Err(_) => Err(ParseError::Syntax { pos: i }),
        }
    }
}

/// Parse a bounded percentage at `i`: a digit run whose value is at
/// most 100, optionally followed by `%`.
pub fn p_chance(s: &[u8], i: usize) -> (r: Result<(usize, Probability), ParseError>)
    requires
        i <= s@.len(),
    ensures
        r matches Ok((j, p)) ==> {
            &&& i < j <= s@.len()
            &&& p.spec_value() == dec_val(
                s@.subrange(i as int, digit_run_end(s@, i as int)),
            )
            &&& p.wf()
            &&& j == digit_run_end(s@, i as int) + (
                if digit_run_end(s@, i as int) < s@.len() && s@[digit_run_end(s@, i as int)]
                    == 0x25 {
                    1int
                } else {
                    0int
                }
            )
        },
        r is Ok <==> (i < s@.len() && is_digit(s@[i as int]) && dec_val(
            s@.subrange(i as int, digit_run_end(s@, i as int)),
        ) <= 100),
        r matches Err(e) ==> e == (ParseError::Syntax { pos: i }),
{
    match p_u32(s, i) {
        Ok((j, v)) => {
            if v <= 100 {
                let p = match Probability::new(v as u8) {
                    Ok(p) => p,
                    Err(_) => {
                        proof {
                            assert(false);
                        }
                        return Err(ParseError::Syntax { pos: i });
                    },
                };
                // optional `%`
                if j < s.len() && s[j] == 0x25 {
                    Ok((j + 1, p))
                } else {
                    Ok((j, p))
                }
            } else {
                Err(ParseError::Syntax { pos: i })
            }
        },
        Err(_) => Err(ParseError::Syntax { pos: i }),
    }
}

/// Copy the bytes of `s` in `[a, b)`.
pub fn copy_range(s: &[u8], a: usize, b: usize) -> (r: Vec<u8>)
    requires
        a <= b <= s@.len(),
    ensures
        r@ == s@.subrange(a as int, b as int),
{
    let mut out: Vec<u8> = Vec::new();
    let mut k: usize = a;
    while k < b
        invariant
            a <= k <= b <= s@.len(),
            out@ =~= s@.subrange(a as int, k as int),
        decreases b - k,
    {
        out.push(s[k]);
        assert(out@ =~= s@.subrange(a as int, k + 1 as int));
        k = k + 1;
    }
    assert(out@ =~= s@.subrange(a as int, b as int));
    out
}

/// A byte that may follow `\` in a string: `"` `\` `/` `n` `r` `t`
/// `b` `f`.
pub open spec fn escape_ok(b: u8) -> bool {
    b == 0x22 || b == 0x5c || b == 0x2f || b == 0x6e || b == 0x72 || b == 0x74 || b == 0x62
        || b == 0x66
}

/// The byte an escape stands for: `n` `r` `t` `b` `f` map to their
/// control characters; `"` `\` `/` stand for themselves.
pub open spec fn escape_val(b: u8) -> u8 {
    if b == 0x6e {
        0x0a
    } else if b == 0x72 {
        0x0d
    } else if b == 0x74 {
        0x09
    } else if b == 0x62 {
        0x08
    } else if b == 0x66 {
        0x0c
    } else {
        b
    }
}

/// What a string body starting at `i` (just past the opening quote)
/// scans to: the position after the closing quote, and the decoded
/// content. `None` when the string is unterminated or an escape is
/// unknown.
pub open spec fn str_scan(s: Seq<u8>, i: int) -> Option<(int, Seq<u8>)>
    decreases s.len() - i when 0 <= i <= s.len()
{
    if i >= s.len() {
        None
    } else if s[i] == 0x22 {
        Some(((i + 1) as int, Seq::empty()))
    } else if s[i] == 0x5c {
        if i + 1 < s.len() && escape_ok(s[i + 1]) {
            match str_scan(s, i + 2) {
                Some((j, c)) => Some((j, seq![escape_val(s[i + 1])] + c)),
                None => None,
            }
        } else {
            None
        }
    } else {
        match str_scan(s, i + 1) {
            Some((j, c)) => Some((j, seq![s[i]] + c)),
            None => None,
        }
    }
}

pub proof fn lemma_str_scan_bounds(s: Seq<u8>, i: int)
    requires
        0 <= i <= s.len(),
    ensures
        str_scan(s, i) matches Some((j, c)) ==> i < j <= s.len(),
    decreases s.len() - i,
{
    if i < s.len() && s[i] != 0x22 {
        if s[i] == 0x5c {
            if i + 1 < s.len() && escape_ok(s[i + 1]) {
                lemma_str_scan_bounds(s, i + 2);
            }
        } else {
            lemma_str_scan_bounds(s, i + 1);
        }
    }
}

/// Prefix the decoded content of a scan outcome.
pub open spec fn scan_concat(pre: Seq<u8>, r: Option<(int, Seq<u8>)>) -> Option<(int, Seq<u8>)> {
    match r {
        Some((j, c)) => Some((j, pre + c)),
        None => None,
    }
}

proof fn lemma_scan_concat_empty(r: Option<(int, Seq<u8>)>)
    ensures
        scan_concat(Seq::empty(), r) == r,
{
    match r {
        Some((j, c)) => {
            assert(Seq::<u8>::empty() + c =~= c);
        },
        None => {},
    }
}

proof fn lemma_scan_concat_assoc(a: Seq<u8>, b: Seq<u8>, r: Option<(int, Seq<u8>)>)
    ensures
        scan_concat(a, scan_concat(b, r)) == scan_concat(a + b, r),
{
    match r {
        Some((j, c)) => {
            assert(a + (b + c) =~= (a + b) + c);
        },
        None => {},
    }
}

/// Prefix the items of a list-scan outcome.
pub open spec fn cat_scan<T>(pre: Seq<T>, r: Option<(int, Seq<T>)>) -> Option<(int, Seq<T>)> {
    match r {
        Some((j, items)) => Some((j, pre + items)),
        None => None,
    }
}

pub proof fn lemma_cat_scan_empty<T>(r: Option<(int, Seq<T>)>)
    ensures
        cat_scan(Seq::empty(), r) == r,
{
    match r {
        Some((j, items)) => {
            assert(Seq::<T>::empty() + items =~= items);
        },
        None => {},
    }
}

pub proof fn lemma_cat_scan_assoc<T>(a: Seq<T>, b: Seq<T>, r: Option<(int, Seq<T>)>)
    ensures
        cat_scan(a, cat_scan(b, r)) == cat_scan(a + b, r),
{
    match r {
        Some((j, items)) => {
            assert(a + (b + items) =~= (a + b) + items);
        },
        None => {},
    }
}

/// Exec mirror of [`escape_ok`].
fn escape_ok_exec(b: u8) -> (r: bool)
    ensures
        r == escape_ok(b),
{
    b == 0x22 || b == 0x5c || b == 0x2f || b == 0x6e || b == 0x72 || b == 0x74 || b == 0x62
        || b == 0x66
}

/// Exec mirror of [`escape_val`].
fn escape_val_exec(b: u8) -> (r: u8)
    ensures
        r == escape_val(b),
{
    if b == 0x6e {
        0x0a
    } else if b == 0x72 {
        0x0d
    } else if b == 0x74 {
        0x09
    } else if b == 0x62 {
        0x08
    } else if b == 0x66 {
        0x0c
    } else {
        b
    }
}

/// The quoted string at `i`, when one starts there: the position past
/// its closing quote and the decoded content.
pub open spec fn string_at(s: Seq<u8>, i: int) -> Option<(int, Seq<u8>)> {
    if i < s.len() && s[i] == 0x22 {
        str_scan(s, i + 1)
    } else {
        None
    }
}

/// Parse a quoted string at `i`: `"`, the body, `"`. The result is the
/// decoded content, exactly as [`str_scan`] describes it.
pub fn p_string(s: &[u8], i: usize) -> (r: Result<(usize, Vec<u8>), ParseError>)
    requires
        i <= s@.len(),
    ensures
        r is Ok <==> (i < s@.len() && s@[i as int] == 0x22 && str_scan(s@, i + 1) is Some),
        r matches Ok((j, c)) ==> {
            &&& str_scan(s@, i + 1) == Some((j as int, c@))
            &&& i < j <= s@.len()
        },
        r matches Err(e) ==> e == (ParseError::Syntax { pos: i }),
{
    let n: usize = s.len();
    if i >= n || s[i] != 0x22 {
        return Err(ParseError::Syntax { pos: i });
    }
    let mut cur: usize = i + 1;
    let mut out: Vec<u8> = Vec::new();
    proof {
        lemma_scan_concat_empty(str_scan(s@, i + 1));
        assert(out@ =~= Seq::<u8>::empty());
    }
    loop
        invariant
            i + 1 <= cur <= n,
            n == s@.len(),
            s@[i as int] == 0x22,
            str_scan(s@, i + 1) == scan_concat(out@, str_scan(s@, cur as int)),
        decreases n - cur,
    {
        if cur >= n {
            return Err(ParseError::Syntax { pos: i });
        }
        let b = s[cur];
        if b == 0x22 {
            proof {
                assert(str_scan(s@, cur as int) == Some(((cur + 1) as int, Seq::<u8>::empty())));
                assert(out@ + Seq::<u8>::empty() =~= out@);
            }
            return Ok((cur + 1, out));
        } else if b == 0x5c {
            if cur + 1 < n && escape_ok_exec(s[cur + 1]) {
                let v = escape_val_exec(s[cur + 1]);
                proof {
                    assert(str_scan(s@, cur as int) == scan_concat(
                        seq![escape_val(s@[cur + 1])],
                        str_scan(s@, cur + 2),
                    ));
                    lemma_scan_concat_assoc(
                        out@,
                        seq![escape_val(s@[cur + 1])],
                        str_scan(s@, cur + 2),
                    );
                    assert(out@ + seq![escape_val(s@[cur + 1])] =~= out@.push(
                        escape_val(s@[cur + 1]),
                    ));
                }
                out.push(v);
                cur = cur + 2;
            } else {
                return Err(ParseError::Syntax { pos: i });
            }
        } else {
            proof {
                assert(str_scan(s@, cur as int) == scan_concat(
                    seq![s@[cur as int]],
                    str_scan(s@, cur + 1),
                ));
                lemma_scan_concat_assoc(out@, seq![s@[cur as int]], str_scan(s@, cur + 1));
                assert(out@ + seq![s@[cur as int]] =~= out@.push(s@[cur as int]));
            }
            out.push(b);
            cur = cur + 1;
        }
    }
}

/// A fully-built component record: a closed union over the seven
/// component kinds. A component's identity is its record's id.
#[derive(Debug)]
pub enum Component {
    Aspect(Box<crate::lantern::Aspect>),
    Card(Box<crate::lantern::Card>),
    Deck(Box<crate::lantern::Deck>),
    Recipe(Box<crate::lantern::Recipe>),
    Verb(Box<crate::lantern::Verb>),
    Legacy(Box<crate::lantern::Legacy>),
    Ending(Box<crate::lantern::Ending>),
}

impl Component {
    /// The id of the contained record.
    pub open spec fn spec_id(&self) -> Seq<u8> {
        match self {
            Component::Aspect(c) => c.id@,
            Component::Card(c) => c.id@,
            Component::Deck(c) => c.id@,
            Component::Recipe(c) => c.id@,
            Component::Verb(c) => c.id@,
            Component::Legacy(c) => c.id@,
            Component::Ending(c) => c.id@,
        }
    }

    /// The kind tag of the contained record.
    pub open spec fn spec_kind(&self) -> crate::errors::ComponentKind {
        match self {
            Component::Aspect(c) => crate::errors::ComponentKind::Aspect,
            Component::Card(c) => crate::errors::ComponentKind::Card,
            Component::Deck(c) => crate::errors::ComponentKind::Deck,
            Component::Recipe(c) => crate::errors::ComponentKind::Recipe,
            Component::Verb(c) => crate::errors::ComponentKind::Verb,
            Component::Legacy(c) => crate::errors::ComponentKind::Legacy,
            Component::Ending(c) => crate::errors::ComponentKind::Ending,
        }
    }

    pub fn id(&self) -> (r: DefKey)
        ensures
            r@ == self.spec_id(),
    {
        match self {
            Component::Aspect(c) => c.id.duplicate(),
            Component::Card(c) => c.id.duplicate(),
            Component::Deck(c) => c.id.duplicate(),
            Component::Recipe(c) => c.id.duplicate(),
            Component::Verb(c) => c.id.duplicate(),
            Component::Legacy(c) => c.id.duplicate(),
            Component::Ending(c) => c.id.duplicate(),
        }
    }
}

/// A raw syntax-tree node of one file: a namespace scoping nested
/// units, or one component declaration with its local attributes and
/// optional inheritance marker.
#[derive(Debug)]
pub enum Unit {
    Namespace { id: DefKey, attrs: Vec<crate::lantern::Attribute>, units: Vec<Unit> },
    ComponentUnit {
        id: DefKey,
        attrs: Vec<crate::lantern::Attribute>,
        component: Component,
        inherits: Option<DefKey>,
    },
}

/// The parsed form of one whole file: its global attributes and its
/// top-level units, prior to any merge.
#[derive(Debug)]
pub struct Crucible {
    pub attributes: Vec<crate::lantern::Attribute>,
    pub units: Vec<Unit>,
}

impl Crucible {
    /// A tree with nothing in it.
    pub fn empty() -> (r: Crucible)
        ensures
            r.attributes@.len() == 0,
            r.units@.len() == 0,
    {
        Crucible { attributes: Vec::new(), units: Vec::new() }
    }

    /// Take another tree's attributes and units into this one, in
    /// order, after this one's own.
    pub fn merge(&mut self, other: Crucible)
        ensures
            final(self).attributes@ == old(self).attributes@ + other.attributes@,
            final(self).units@ == old(self).units@ + other.units@,
    {
        let mut other = other;
        self.attributes.append(&mut other.attributes);
        self.units.append(&mut other.units);
    }

    /// A version of [`Crucible::merge`] that consumes both trees and
    /// returns the result: convenient when chaining merges.
    pub fn join(self, other: Crucible) -> (r: Crucible)
        ensures
            r.attributes@ == self.attributes@ + other.attributes@,
            r.units@ == self.units@ + other.units@,
    {
        let mut out = self;
        out.merge(other);
        out
    }
}

/// The reserved field name `id`.
pub open spec fn bytes_id() -> Seq<u8> {
    seq![0x69u8, 0x64]
}

/// The reserved field name `label`.
pub open spec fn bytes_label() -> Seq<u8> {
    seq![0x6cu8, 0x61, 0x62, 0x65, 0x6c]
}

/// The reserved field name `description`.
pub open spec fn bytes_description() -> Seq<u8> {
    seq![0x64u8, 0x65, 0x73, 0x63, 0x72, 0x69, 0x70, 0x74, 0x69, 0x6f, 0x6e]
}

/// The recognized key `icon`.
pub open spec fn bytes_icon() -> Seq<u8> {
    seq![0x69u8, 0x63, 0x6f, 0x6e]
}

/// The recognized key `verbicon`.
pub open spec fn bytes_verbicon() -> Seq<u8> {
    seq![0x76u8, 0x65, 0x72, 0x62, 0x69, 0x63, 0x6f, 0x6e]
}

/// The recognized key `resaturate`.
pub open spec fn bytes_resaturate() -> Seq<u8> {
    seq![0x72u8, 0x65, 0x73, 0x61, 0x74, 0x75, 0x72, 0x61, 0x74, 0x65]
}

/// ASCII lower-casing of a byte string.
pub open spec fn ascii_lower_seq(s: Seq<u8>) -> Seq<u8> {
    Seq::new(s.len(), |i: int| to_lower(s[i]))
}

/// Exact byte equality of a vector against a slice.
pub fn bytes_eq(v: &Vec<u8>, t: &[u8]) -> (r: bool)
    ensures
        r == (v@ == t@),
{
    if v.len() != t.len() {
        assert(v@ != t@);
        return false;
    }
    let n: usize = v.len();
    let mut i: usize = 0;
    while i < n
        invariant
            i <= n,
            n == v@.len() == t@.len(),
            forall|q: int| 0 <= q < i ==> v@[q] == t@[q],
        decreases n - i,
    {
        if v[i] != t[i] {
            return false;
        }
        i = i + 1;
    }
    assert(v@ =~= t@);
    true
}

/// Case-insensitive (ASCII) byte equality of a vector against a slice.
pub fn bytes_eq_nc(v: &Vec<u8>, t: &[u8]) -> (r: bool)
    ensures
        r == (ascii_lower_seq(v@) == ascii_lower_seq(t@)),
{
    if v.len() != t.len() {
        assert(ascii_lower_seq(v@).len() != ascii_lower_seq(t@).len());
        return false;
    }
    let n: usize = v.len();
    let mut i: usize = 0;
    while i < n
        invariant
            i <= n,
            n == v@.len() == t@.len(),
            forall|q: int| 0 <= q < i ==> to_lower(v@[q]) == to_lower(t@[q]),
        decreases n - i,
    {
        if lower_byte(v[i]) != lower_byte(t[i]) {
            assert(ascii_lower_seq(v@)[i as int] != ascii_lower_seq(t@)[i as int]);
            return false;
        }
        i = i + 1;
    }
    assert(ascii_lower_seq(v@) =~= ascii_lower_seq(t@));
    true
}

/// View of a slot-filter list.
pub open spec fn reqs_view(v: Seq<crate::lantern::SlotFilter>) -> Seq<
    crate::lantern::SlotFilterV,
> {
    Seq::new(v.len(), |i: int| v[i]@)
}

/// View of an unrecognized-keys bag.
pub open spec fn others_view(v: Seq<(DefKey, crate::literal::Literal)>) -> Seq<
    (Seq<u8>, crate::literal::LitV),
> {
    Seq::new(v.len(), |i: int| (v[i].0@, v[i].1@))
}

/// No two entries of an association list share a key.
pub open spec fn others_distinct(s: Seq<(Seq<u8>, crate::literal::LitV)>) -> bool {
    forall|i: int, j: int| 0 <= i < j < s.len() ==> (#[trigger] s[i]).0 != (#[trigger] s[j]).0
}

/// Whether an association list already binds `k`.
pub open spec fn has_key(s: Seq<(Seq<u8>, crate::literal::LitV)>, k: Seq<u8>) -> bool {
    exists|i: int| 0 <= i < s.len() && (#[trigger] s[i]).0 == k
}

/// Exec search for a key in an unrecognized-keys bag.
pub fn find_key(others: &Vec<(DefKey, crate::literal::Literal)>, k: &DefKey) -> (r: bool)
    ensures
        r == has_key(others_view(others@), k@),
{
    let n: usize = others.len();
    let mut i: usize = 0;
    while i < n
        invariant
            i <= n,
            n == others@.len(),
            forall|q: int| 0 <= q < i ==> (#[trigger] others_view(others@)[q]).0 != k@,
        decreases n - i,
    {
        if others[i].0.eq_key(k) {
            assert(others_view(others@)[i as int].0 == k@);
            return true;
        }
        assert(others_view(others@)[i as int].0 == others@[i as int].0@);
        i = i + 1;
    }
    false
}

/// View of a trigger list.
pub open spec fn xts_view(v: Seq<crate::lantern::Xtrigger>) -> Seq<crate::lantern::XtriggerV> {
    Seq::new(v.len(), |i: int| v[i]@)
}

/// Where the statement separator ends, when one stands at `i`:
/// horizontal whitespace, an optional `// ...` comment, then either
/// the closing `}` (left in place), a line break (consumed), or the
/// end of input.
pub open spec fn sep_scan(s: Seq<u8>, i: int) -> Option<int> {
    let j0 = inline_end(s, i);
    let j = if j0 < s.len() && s[j0] == 0x2f && j0 + 1 < s.len() && s[j0 + 1] == 0x2f {
        line_comment_end(s, j0 + 2)
    } else {
        j0
    };
    if j >= s.len() {
        Some(j)
    } else if s[j] == 0x7d {
        Some(j)
    } else if s[j] == 0x0a || s[j] == 0x0d {
        Some(j + 1)
    } else {
        None
    }
}

/// The statement separator inside a brace block, exactly as
/// [`sep_scan`] describes.
pub fn stmt_sep(s: &[u8], i: usize) -> (r: Result<usize, ParseError>)
    requires
        i <= s@.len(),
    ensures
        r is Ok <==> sep_scan(s@, i as int) is Some,
        r matches Ok(j) ==> sep_scan(s@, i as int) == Some(j as int) && i <= j <= s@.len(),
        r matches Err(e) ==> e is Syntax,
{
    let n: usize = s.len();
    let mut j = skip_inline(s, i);
    if j < n && s[j] == 0x2f && j + 1 < n && s[j + 1] == 0x2f {
        let ghost j0 = j as int;
        let mut k: usize = j + 2;
        while k < n && s[k] != 0x0a && s[k] != 0x0d
            invariant
                j + 2 <= k <= n,
                n == s@.len(),
                line_comment_end(s@, j0 + 2) == line_comment_end(s@, k as int),
            decreases n - k,
        {
            k = k + 1;
        }
        assert(line_comment_end(s@, k as int) == k);
        j = k;
    }
    if j >= n {
        Ok(j)
    } else if s[j] == 0x7d {
        Ok(j)
    } else if s[j] == 0x0a || s[j] == 0x0d {
        Ok(j + 1)
    } else {
        Err(ParseError::Syntax { pos: j })
    }
}

/// The word `hidden`.
pub open spec fn bytes_hidden() -> Seq<u8> {
    seq![0x68u8, 0x69, 0x64, 0x64, 0x65, 0x6e]
}

/// Where a hidden marker at `i` ends: the word `hidden`, or the
/// symbol `?`.
pub open spec fn hidden_at(s: Seq<u8>, i: int) -> Option<int> {
    if tag_matches(s, i, bytes_hidden()) {
        Some(i + 6)
    } else if i < s.len() && s[i] == 0x3f {
        Some(i + 1)
    } else {
        None
    }
}

/// Parse the `hidden` marker, exactly as [`hidden_at`] describes.
pub fn p_hidden(s: &[u8], i: usize) -> (r: Result<usize, ParseError>)
    requires
        i <= s@.len(),
    ensures
        r is Ok <==> hidden_at(s@, i as int) is Some,
        r matches Ok(j) ==> hidden_at(s@, i as int) == Some(j as int) && i < j <= s@.len(),
        r matches Err(e) ==> e is Syntax,
{
    let t: [u8; 6] = [0x68, 0x69, 0x64, 0x64, 0x65, 0x6e];  // "hidden"
    proof {
        assert(t@ =~= bytes_hidden());
    }
    match p_tag(s, i, t.as_slice()) {
        Ok(j) => Ok(j),
        Err(_) => match p_byte(s, i, 0x3f) {
            Ok(j) => Ok(j),
            Err(e) => Err(e),
        },
    }
}

/// The identifier at `i`, when one starts there: its end and text.
pub open spec fn key_at(s: Seq<u8>, i: int) -> Option<(int, Seq<u8>)> {
    if i < s.len() && is_key_byte(s[i]) {
        Some((key_run_end(s, i), s.subrange(i, key_run_end(s, i))))
    } else {
        None
    }
}

/// The unsigned number at `i`, when a digit starts there and the run's
/// value fits.
pub open spec fn u32_at(s: Seq<u8>, i: int) -> Option<(int, u32)> {
    if i < s.len() && is_digit(s[i]) && dec_val(s.subrange(i, digit_run_end(s, i))) <= u32::MAX {
        Some((digit_run_end(s, i), dec_val(s.subrange(i, digit_run_end(s, i))) as u32))
    } else {
        None
    }
}

/// The signed number at `i`: an optional `-`, then a digit run whose
/// value fits in `i32`.
pub open spec fn i32_at(s: Seq<u8>, i: int) -> Option<(int, i32)> {
    if i < s.len() && s[i] == 0x2d {
        match u32_at(s, i + 1) {
            Some((j, m)) => if m <= 0x8000_0000u32 {
                Some((j, (-(m as int)) as i32))
            } else {
                None
            },
            None => None,
        }
    } else {
        match u32_at(s, i) {
            Some((j, m)) => if m <= 0x7fff_ffffu32 {
                Some((j, m as i32))
            } else {
                None
            },
            None => None,
        }
    }
}

/// The bounded percentage at `i`: a digit run of value at most 100,
/// with an optional `%`.
pub open spec fn chance_at(s: Seq<u8>, i: int) -> Option<(int, u8)> {
    if i < s.len() && is_digit(s[i]) && dec_val(s.subrange(i, digit_run_end(s, i))) <= 100 {
        let e = digit_run_end(s, i);
        let j = if e < s.len() && s[e] == 0x25 {
            e + 1
        } else {
            e
        };
        Some((j, dec_val(s.subrange(i, e)) as u8))
    } else {
        None
    }
}

/// An optional chance probed after whitespace; the whitespace stays
/// consumed either way, and an omitted chance is 100.
pub open spec fn opt_chance_after_ws(s: Seq<u8>, i: int) -> (int, u8) {
    match chance_at(s, ws_scan(s, i)) {
        Some((j, c)) => (j, c),
        None => (ws_scan(s, i), 100),
    }
}

/// The keyword `xtrigger`.
pub open spec fn bytes_xtrigger() -> Seq<u8> {
    seq![0x78u8, 0x74, 0x72, 0x69, 0x67, 0x67, 0x65, 0x72]
}

/// The arrow `->`.
pub open spec fn bytes_arrow() -> Seq<u8> {
    seq![0x2du8, 0x3e]
}

/// The keyword `spawn`.
pub open spec fn bytes_spawn() -> Seq<u8> {
    seq![0x73u8, 0x70, 0x61, 0x77, 0x6e]
}

/// The keyword `mutate`.
pub open spec fn bytes_mutate() -> Seq<u8> {
    seq![0x6du8, 0x75, 0x74, 0x61, 0x74, 0x65]
}

/// The `spawn <target>:<amount> [<chance>]` reaction at `i`.
pub open spec fn spawn_rest_scan(s: Seq<u8>, i: int, cat: Seq<u8>) -> Option<(int, XtriggerV)> {
    if !tag_nc_matches(s, i, bytes_spawn()) {
        None
    } else {
        match key_at(s, ws_scan(s, i + 5)) {
            Some((j3, tgt)) => if j3 < s.len() && s[j3] == 0x3a {
                match u32_at(s, j3 + 1) {
                    Some((j5, amt)) => {
                        let (j7, c) = opt_chance_after_ws(s, j5);
                        Some(
                            (
                                j7,
                                XtriggerV::Spawn {
                                    catalyst: cat,
                                    creates: tgt,
                                    amount: amt,
                                    chance: c,
                                },
                            ),
                        )
                    },
                    None => None,
                }
            } else {
                None
            },
            None => None,
        }
    }
}

/// The `mutate <target>:<signed-amount> [<chance>]` reaction at `i`.
pub open spec fn mutate_rest_scan(s: Seq<u8>, i: int, cat: Seq<u8>) -> Option<(int, XtriggerV)> {
    if !tag_nc_matches(s, i, bytes_mutate()) {
        None
    } else {
        match key_at(s, ws_scan(s, i + 6)) {
            Some((j3, tgt)) => if j3 < s.len() && s[j3] == 0x3a {
                match i32_at(s, j3 + 1) {
                    Some((j5, amt)) => {
                        let (j7, c) = opt_chance_after_ws(s, j5);
                        Some(
                            (
                                j7,
                                XtriggerV::Mutate {
                                    catalyst: cat,
                                    adds_to_catalyst: tgt,
                                    amount: amt,
                                    chance: c,
                                },
                            ),
                        )
                    },
                    None => None,
                }
            } else {
                None
            },
            None => None,
        }
    }
}

/// The explicit `<target>:<amount> [<chance>]` transform at `i`.
pub open spec fn transform_rest_scan(s: Seq<u8>, i: int, cat: Seq<u8>) -> Option<
    (int, XtriggerV),
> {
    match key_at(s, i) {
        Some((j1, tgt)) => if j1 < s.len() && s[j1] == 0x3a {
            match u32_at(s, j1 + 1) {
                Some((j3, amt)) => {
                    let (j5, c) = opt_chance_after_ws(s, j3);
                    Some(
                        (
                            j5,
                            XtriggerV::Transform {
                                catalyst: cat,
                                transforms_to: tgt,
                                amount: amt,
                                chance: c,
                            },
                        ),
                    )
                },
                None => None,
            }
        } else {
            None
        },
        None => None,
    }
}

/// The bare `<target> [<chance>]` transform at `i`: amount 1. An
/// omitted chance leaves the trailing whitespace unconsumed, as the
/// probe backtracks whole.
pub open spec fn bare_rest_scan(s: Seq<u8>, i: int, cat: Seq<u8>) -> Option<(int, XtriggerV)> {
    match key_at(s, i) {
        Some((j1, tgt)) => {
            let (j3, c) = match chance_at(s, ws_scan(s, j1)) {
                Some((j, cc)) => (j, cc),
                None => (j1, 100),
            };
            Some(
                (
                    j3,
                    XtriggerV::Transform {
                        catalyst: cat,
                        transforms_to: tgt,
                        amount: 1,
                        chance: c,
                    },
                ),
            )
        },
        None => None,
    }
}

/// What an `xtrigger` statement at `i` scans to:
/// `xtrigger <catalyst> -> <reaction>`, the reaction being the first
/// of `spawn`, `mutate`, explicit transform, bare transform that
/// matches — in that priority order.
pub open spec fn xtrigger_scan(s: Seq<u8>, i: int) -> Option<(int, XtriggerV)> {
    let i0 = ws_scan(s, i);
    if !tag_matches(s, i0, bytes_xtrigger()) {
        None
    } else {
        match key_at(s, ws_scan(s, i0 + 8)) {
            Some((i3, cat)) => {
                let i4 = ws_scan(s, i3);
                if !tag_matches(s, i4, bytes_arrow()) {
                    None
                } else {
                    let i6 = ws_scan(s, i4 + 2);
                    match spawn_rest_scan(s, i6, cat) {
                        Some(r) => Some(r),
                        None => match mutate_rest_scan(s, i6, cat) {
                            Some(r) => Some(r),
                            None => match transform_rest_scan(s, i6, cat) {
                                Some(r) => Some(r),
                                None => bare_rest_scan(s, i6, cat),
                            },
                        },
                    }
                }
            },
            None => None,
        }
    }
}

/// Parse an `xtrigger` statement:
/// `xtrigger <catalyst> -> <reaction>`, where the reaction is tried in
/// this order: `spawn <t>:<n> [chance]`, `mutate <t>:<n> [chance]`,
/// `<t>:<n> [chance]` (explicit transform), `<t> [chance]` (bare
/// transform, amount 1). An omitted chance defaults to 100.
pub fn p_xtrigger(s: &[u8], i: usize) -> (r: Result<(usize, crate::lantern::Xtrigger), ParseError>)
    requires
        i <= s@.len(),
    ensures
        r is Ok <==> xtrigger_scan(s@, i as int) is Some,
        r matches Ok((j, x)) ==> xtrigger_scan(s@, i as int) == Some((j as int, x@)) && i < j
            <= s@.len() && x.wf(),
        r matches Err(e) ==> e is Syntax,
{
    let n: usize = s.len();
    let kw: [u8; 8] = [0x78, 0x74, 0x72, 0x69, 0x67, 0x67, 0x65, 0x72];  // "xtrigger"
    let arrow_t: [u8; 2] = [0x2d, 0x3e];  // "->"
    let spawn_t: [u8; 5] = [0x73, 0x70, 0x61, 0x77, 0x6e];  // "spawn"
    let mutate_t: [u8; 6] = [0x6d, 0x75, 0x74, 0x61, 0x74, 0x65];  // "mutate"
    proof {
        assert(kw@ =~= bytes_xtrigger());
        assert(arrow_t@ =~= bytes_arrow());
        assert(spawn_t@ =~= bytes_spawn());
        assert(mutate_t@ =~= bytes_mutate());
    }
    let i0 = skip_ws(s, i);
    let i1 = match p_tag(s, i0, kw.as_slice()) {
        Ok(j) => j,
        Err(e) => {
            return Err(e);
        },
    };
    let i2 = skip_ws(s, i1);
    let (i3, catalyst) = match p_key(s, i2) {
        Ok(v) => v,
        Err(e) => {
            return Err(e);
        },
    };
    let i4 = skip_ws(s, i3);
    let i5 = match p_tag(s, i4, arrow_t.as_slice()) {
        Ok(j) => j,
        Err(e) => {
            return Err(e);
        },
    };
    let i6 = skip_ws(s, i5);
    // reaction: spawn
    match p_tag_nc(s, i6, spawn_t.as_slice()) {
        Ok(j1) => {
            let j2 = skip_ws(s, j1);
            match p_key(s, j2) {
                Ok((j3, target)) => {
                    match p_byte(s, j3, 0x3a) {
                        Ok(j4) => {
                            match p_u32(s, j4) {
                                Ok((j5, amount)) => {
                                    let j6 = skip_ws(s, j5);
                                    let (j7, chance) = match p_chance(s, j6) {
                                        Ok((j7, c)) => (j7, c),
                                        Err(_) => (j6, Probability::full()),
                                    };
                                    return Ok((
                                        j7,
                                        crate::lantern::Xtrigger::Spawn {
                                            catalyst,
                                            creates: target,
                                            amount,
                                            chance,
                                        },
                                    ));
                                },
                                Err(_) => {},
                            }
                        },
                        Err(_) => {},
                    }
                },
                Err(_) => {},
            }
        },
        Err(_) => {},
    }
    // reaction: mutate
    match p_tag_nc(s, i6, mutate_t.as_slice()) {
        Ok(j1) => {
            let j2 = skip_ws(s, j1);
            match p_key(s, j2) {
                Ok((j3, target)) => {
                    match p_byte(s, j3, 0x3a) {
                        Ok(j4) => {
                            match p_i32(s, j4) {
                                Ok((j5, amount)) => {
                                    let j6 = skip_ws(s, j5);
                                    let (j7, chance) = match p_chance(s, j6) {
                                        Ok((j7, c)) => (j7, c),
                                        Err(_) => (j6, Probability::full()),
                                    };
                                    return Ok((
                                        j7,
                                        crate::lantern::Xtrigger::Mutate {
                                            catalyst,
                                            adds_to_catalyst: target,
                                            amount,
                                            chance,
                                        },
                                    ));
                                },
                                Err(_) => {},
                            }
                        },
                        Err(_) => {},
                    }
                },
                Err(_) => {},
            }
        },
        Err(_) => {},
    }
    // reaction: explicit transform `target:amount`
    match p_key(s, i6) {
        Ok((j1, target)) => {
            match p_byte(s, j1, 0x3a) {
                Ok(j2) => {
                    match p_u32(s, j2) {
                        Ok((j3, amount)) => {
                            let j4 = skip_ws(s, j3);
                            let (j5, chance) = match p_chance(s, j4) {
                                Ok((j5, c)) => (j5, c),
                                Err(_) => (j4, Probability::full()),
                            };
                            return Ok((
                                j5,
                                crate::lantern::Xtrigger::Transform {
                                    catalyst,
                                    transforms_to: target,
                                    amount,
                                    chance,
                                },
                            ));
                        },
                        Err(_) => {},
                    }
                },
                Err(_) => {},
            }
        },
        Err(_) => {},
    }
    // reaction: bare transform `target`, amount 1
    match p_key(s, i6) {
        Ok((j1, target)) => {
            let j2 = skip_ws(s, j1);
            let (j3, chance) = match p_chance(s, j2) {
                Ok((j3, c)) => (j3, c),
                Err(_) => (j1, Probability::full()),
            };
            Ok((
                j3,
                crate::lantern::Xtrigger::Transform {
                    catalyst,
                    transforms_to: target,
                    amount: 1,
                    chance,
                },
            ))
        },
        Err(e) => Err(e),
    }
}

/// The keyword `consume`.
pub open spec fn bytes_consume() -> Seq<u8> {
    seq![0x63u8, 0x6f, 0x6e, 0x73, 0x75, 0x6d, 0x65]
}

/// The keyword `greedy`.
pub open spec fn bytes_greedy() -> Seq<u8> {
    seq![0x67u8, 0x72, 0x65, 0x65, 0x64, 0x79]
}

/// The keyword `slot`.
pub open spec fn bytes_slot() -> Seq<u8> {
    seq![0x73u8, 0x6c, 0x6f, 0x74]
}

/// One slot filter at `i`: `[!]<element>:<amount>`, `!` meaning
/// forbidden.
pub open spec fn filter_at(s: Seq<u8>, i: int) -> Option<(int, crate::lantern::SlotFilterV)> {
    let i0 = ws_scan(s, i);
    let p = if i0 < s.len() && s[i0] == 0x21 {
        (i0 + 1, true)
    } else {
        (i0, false)
    };
    match key_at(s, p.0) {
        Some((i2, el)) => if i2 < s.len() && s[i2] == 0x3a {
            match u32_at(s, i2 + 1) {
                Some((i4, amt)) => Some(
                    (
                        i4,
                        if p.1 {
                            crate::lantern::SlotFilterV::Forbid { element: el, amount: amt }
                        } else {
                            crate::lantern::SlotFilterV::Accept { element: el, amount: amt }
                        },
                    ),
                ),
                None => None,
            }
        } else {
            None
        },
        None => None,
    }
}

proof fn lemma_filter_at_advances(s: Seq<u8>, i: int)
    requires
        0 <= i <= s.len(),
    ensures
        filter_at(s, i) matches Some(q) ==> i < q.0 <= s.len(),
{
    lemma_ws_scan(s, i);
    let i0 = ws_scan(s, i);
    let p1 = if i0 < s.len() && s[i0] == 0x21 {
        i0 + 1
    } else {
        i0
    };
    if p1 < s.len() && is_key_byte(s[p1]) {
        lemma_key_run(s, p1);
        let i2 = key_run_end(s, p1);
        if i2 < s.len() && s[i2] == 0x3a {
            lemma_digit_run(s, i2 + 1);
        }
    }
}

/// The rest of a comma-separated filter list starting at an item,
/// through the closing `)`.
pub open spec fn filters_scan(s: Seq<u8>, i: int) -> Option<
    (int, Seq<crate::lantern::SlotFilterV>),
>
    decreases s.len() - i when 0 <= i <= s.len()
        via filters_scan_decreases
{
    match filter_at(s, i) {
        Some((j1, f)) => {
            let j2 = ws_scan(s, j1);
            if j2 < s.len() && s[j2] == 0x2c {
                match filters_scan(s, j2 + 1) {
                    Some((j3, rest)) => Some((j3, seq![f] + rest)),
                    None => None,
                }
            } else if j2 < s.len() && s[j2] == 0x29 {
                Some((j2 + 1, seq![f]))
            } else {
                None
            }
        },
        None => None,
    }
}

#[via_fn]
proof fn filters_scan_decreases(s: Seq<u8>, i: int) {
    lemma_filter_at_advances(s, i);
    match filter_at(s, i) {
        Some((j1, f)) => {
            lemma_ws_scan(s, j1);
        },
        None => {},
    }
}

/// The whole slot definition at `i`: optional capacity modifiers (two
/// probing rounds, each spelling at most once), the word `slot`, id,
/// label, description, and an optional parenthesized filter list.
pub open spec fn slot_mods2(s: Seq<u8>, i: int, consumes: bool, greedy: bool) -> (
    int,
    bool,
    bool,
) {
    let c0 = ws_scan(s, i);
    if !consumes && c0 < s.len() && s[c0] == 0x21 {
        (c0 + 1, true, greedy)
    } else if !consumes && tag_nc_matches(s, c0, bytes_consume()) {
        (c0 + 7, true, greedy)
    } else if !greedy && c0 < s.len() && s[c0] == 0x3f {
        (c0 + 1, consumes, true)
    } else if !greedy && tag_nc_matches(s, c0, bytes_greedy()) {
        (c0 + 6, consumes, true)
    } else {
        (i, consumes, greedy)
    }
}

pub open spec fn slot_mods(s: Seq<u8>, i: int) -> (int, bool, bool) {
    let c0 = ws_scan(s, i);
    if c0 < s.len() && s[c0] == 0x21 {
        slot_mods2(s, c0 + 1, true, false)
    } else if tag_nc_matches(s, c0, bytes_consume()) {
        slot_mods2(s, c0 + 7, true, false)
    } else if c0 < s.len() && s[c0] == 0x3f {
        slot_mods2(s, c0 + 1, false, true)
    } else if tag_nc_matches(s, c0, bytes_greedy()) {
        slot_mods2(s, c0 + 6, false, true)
    } else {
        (i, false, false)
    }
}

pub open spec fn slot_scan(s: Seq<u8>, i: int) -> Option<(int, crate::lantern::SlotV)> {
    let m = slot_mods(s, i);
    let i0 = ws_scan(s, m.0);
    if !tag_nc_matches(s, i0, bytes_slot()) {
        None
    } else {
        match key_at(s, ws_scan(s, i0 + 4)) {
            Some((i3, id)) => match string_at(s, ws_scan(s, i3)) {
                Some((i5, label)) => match string_at(s, ws_scan(s, i5)) {
                    Some((i7, description)) => {
                        let i8 = ws_scan(s, i7);
                        if i8 < s.len() && s[i8] == 0x28 {
                            let first = ws_scan(s, i8 + 1);
                            if first < s.len() && s[first] == 0x29 {
                                Some(
                                    (
                                        first + 1,
                                        crate::lantern::SlotV {
                                            id,
                                            label,
                                            description,
                                            consumes: m.1,
                                            greedy: m.2,
                                            requirements: Seq::empty(),
                                        },
                                    ),
                                )
                            } else {
                                match filters_scan(s, i8 + 1) {
                                    Some((j, reqs)) => Some(
                                        (
                                            j,
                                            crate::lantern::SlotV {
                                                id,
                                                label,
                                                description,
                                                consumes: m.1,
                                                greedy: m.2,
                                                requirements: reqs,
                                            },
                                        ),
                                    ),
                                    None => None,
                                }
                            }
                        } else {
                            Some(
                                (
                                    i7,
                                    crate::lantern::SlotV {
                                        id,
                                        label,
                                        description,
                                        consumes: m.1,
                                        greedy: m.2,
                                        requirements: Seq::empty(),
                                    },
                                ),
                            )
                        }
                    },
                    None => None,
                },
                None => None,
            },
            None => None,
        }
    }
}

/// Parse one slot filter: `[!]<element>:<amount>`; `!` means the
/// element is forbidden, its absence that it is accepted — exactly as
/// [`filter_at`] describes.
pub fn p_slot_filter(s: &[u8], i: usize) -> (r: Result<
    (usize, crate::lantern::SlotFilter),
    ParseError,
>)
    requires
        i <= s@.len(),
    ensures
        r is Ok <==> filter_at(s@, i as int) is Some,
        r matches Ok((j, f)) ==> filter_at(s@, i as int) == Some((j as int, f@)) && i < j
            <= s@.len() && f.wf(),
        r matches Err(e) ==> e is Syntax,
{
    let i0 = skip_ws(s, i);
    let (i1, forbid) = match p_byte(s, i0, 0x21) {
        Ok(j) => (j, true),
        Err(_) => (i0, false),
    };
    let (i2, element) = match p_key(s, i1) {
        Ok(v) => v,
        Err(e) => {
            return Err(e);
        },
    };
    let i3 = match p_byte(s, i2, 0x3a) {
        Ok(j) => j,
        Err(e) => {
            return Err(e);
        },
    };
    let (i4, amount) = match p_u32(s, i3) {
        Ok(v) => v,
        Err(e) => {
            return Err(e);
        },
    };
    if forbid {
        Ok((i4, crate::lantern::SlotFilter::Forbid { element, amount }))
    } else {
        Ok((i4, crate::lantern::SlotFilter::Accept { element, amount }))
    }
}

/// Probe one capacity-modifier spelling, honouring which flags are
/// already set, exactly as [`slot_mods2`] describes.
fn p_slot_mod_round(s: &[u8], i: usize, consumes: bool, greedy: bool) -> (r: (usize, bool, bool))
    requires
        i <= s@.len(),
    ensures
        (r.0 as int, r.1, r.2) == slot_mods2(s@, i as int, consumes, greedy),
        i <= r.0 <= s@.len(),
{
    let consume_t: [u8; 7] = [0x63, 0x6f, 0x6e, 0x73, 0x75, 0x6d, 0x65];  // "consume"
    let greedy_t: [u8; 6] = [0x67, 0x72, 0x65, 0x65, 0x64, 0x79];  // "greedy"
    proof {
        assert(consume_t@ =~= bytes_consume());
        assert(greedy_t@ =~= bytes_greedy());
    }
    let c0 = skip_ws(s, i);
    if !consumes && c0 < s.len() && s[c0] == 0x21 {
        (c0 + 1, true, greedy)
    } else if !consumes && matches!(p_tag_nc(s, c0, consume_t.as_slice()), Ok(_)) {
        (c0 + 7, true, greedy)
    } else if !greedy && c0 < s.len() && s[c0] == 0x3f {
        (c0 + 1, consumes, true)
    } else if !greedy && matches!(p_tag_nc(s, c0, greedy_t.as_slice()), Ok(_)) {
        (c0 + 6, consumes, true)
    } else {
        (i, consumes, greedy)
    }
}

/// Parse a slot definition: optional capacity modifiers (`consume`/`!`
/// and `greedy`/`?`, in either order, each at most once), the word
/// `slot`, an id, a label, a description, and an optional
/// parenthesized, comma-separated filter list — exactly as
/// [`slot_scan`] describes.
#[verifier::loop_isolation(false)]
pub fn p_slot(s: &[u8], i: usize) -> (r: Result<(usize, crate::lantern::Slot), ParseError>)
    requires
        i <= s@.len(),
    ensures
        r is Ok <==> slot_scan(s@, i as int) is Some,
        r matches Ok((j, sl)) ==> slot_scan(s@, i as int) == Some((j as int, sl@)) && i <= j
            <= s@.len() && sl.wf(),
        r matches Err(e) ==> e is Syntax,
{
    let n: usize = s.len();
    let slot_kw: [u8; 4] = [0x73, 0x6c, 0x6f, 0x74];  // "slot"
    proof {
        assert(slot_kw@ =~= bytes_slot());
    }
    // the two modifier rounds
    let first = p_slot_mod_round(s, i, false, false);
    let m = if first.1 || first.2 {
        p_slot_mod_round(s, first.0, first.1, first.2)
    } else {
        first
    };
    proof {
        assert((m.0 as int, m.1, m.2) == slot_mods(s@, i as int));
    }
    let consumes = m.1;
    let greedy = m.2;
    let i0 = skip_ws(s, m.0);
    let i1 = match p_tag_nc(s, i0, slot_kw.as_slice()) {
        Ok(j) => j,
        Err(e) => {
            return Err(e);
        },
    };
    let i2 = skip_ws(s, i1);
    let (i3, id) = match p_key(s, i2) {
        Ok(v) => v,
        Err(e) => {
            return Err(e);
        },
    };
    let i4 = skip_ws(s, i3);
    let (i5, label) = match p_string(s, i4) {
        Ok(v) => v,
        Err(e) => {
            return Err(e);
        },
    };
    let i6 = skip_ws(s, i5);
    let (i7, description) = match p_string(s, i6) {
        Ok(v) => v,
        Err(e) => {
            return Err(e);
        },
    };
    // optional filter list
    let i8 = skip_ws(s, i7);
    let mut requirements: Vec<crate::lantern::SlotFilter> = Vec::new();
    if i8 < n && s[i8] == 0x28 {
        let first2 = skip_ws(s, i8 + 1);
        if first2 < n && s[first2] == 0x29 {
            let sl = crate::lantern::Slot { id, label, description, consumes, greedy, requirements };
            proof {
                assert(sl@.requirements =~= Seq::<crate::lantern::SlotFilterV>::empty());
            }
            return Ok((first2 + 1, sl));
        }
        let mut cur2: usize = i8 + 1;
        proof {
            lemma_cat_scan_empty(filters_scan(s@, i8 + 1));
            assert(crate::parser::reqs_view(requirements@) =~= Seq::<
                crate::lantern::SlotFilterV,
            >::empty());
        }
        loop
            invariant
                i < cur2 <= s@.len(),
                n == s@.len(),
                valid_key(id@),
                cat_scan(reqs_view(requirements@), filters_scan(s@, cur2 as int)) == filters_scan(
                    s@,
                    i8 + 1,
                ),
                forall|k: int| 0 <= k < requirements@.len()
                    ==> (#[trigger] requirements@[k]).wf(),
            decreases s@.len() - cur2,
        {
            match p_slot_filter(s, cur2) {
                Ok((j1, f)) => {
                    let j2 = skip_ws(s, j1);
                    if j2 < s.len() && s[j2] == 0x2c {
                        proof {
                            lemma_cat_scan_assoc(
                                reqs_view(requirements@),
                                seq![f@],
                                filters_scan(s@, j2 + 1),
                            );
                            assert(reqs_view(requirements@) + seq![f@] =~= reqs_view(
                                requirements@.push(f),
                            ));
                        }
                        requirements.push(f);
                        cur2 = j2 + 1;
                    } else if j2 < s.len() && s[j2] == 0x29 {
                        proof {
                            assert(reqs_view(requirements@) + seq![f@] =~= reqs_view(
                                requirements@.push(f),
                            ));
                        }
                        requirements.push(f);
                        let ghost fin = reqs_view(requirements@);
                        let sl = crate::lantern::Slot {
                            id,
                            label,
                            description,
                            consumes,
                            greedy,
                            requirements,
                        };
                        proof {
                            assert(sl@.requirements =~= fin);
                        }
                        return Ok((j2 + 1, sl));
                    } else {
                        return Err(ParseError::Syntax { pos: j2 });
                    }
                },
                Err(e) => {
                    return Err(e);
                },
            }
        }
    } else {
        let sl = crate::lantern::Slot { id, label, description, consumes, greedy, requirements };
        proof {
            assert(sl@.requirements =~= Seq::<crate::lantern::SlotFilterV>::empty());
        }
        Ok((i7, sl))
    }
}

/// The keyword `from`.
pub open spec fn bytes_from() -> Seq<u8> {
    seq![0x66u8, 0x72, 0x6f, 0x6d]
}

/// An attribute body at `i`: `<key> [= <literal>]`.
pub open spec fn attr_scan(s: Seq<u8>, i: int) -> Option<(int, (Seq<u8>, Option<
    crate::literal::LitV,
>))> {
    match key_at(s, ws_scan(s, i)) {
        Some((i1, k)) => {
            let i2 = ws_scan(s, i1);
            if i2 < s.len() && s[i2] == 0x3d {
                match crate::literal::lit_scan(s, i2 + 1) {
                    Some((i3, v)) => Some((i3, (k, Some(v)))),
                    None => None,
                }
            } else {
                Some((i1, (k, None)))
            }
        },
        None => None,
    }
}

/// A global attribute at `i`: `#![<attr>]`.
pub open spec fn global_attr_scan(s: Seq<u8>, i: int) -> Option<(int, (Seq<u8>, Option<
    crate::literal::LitV,
>))> {
    let i0 = ws_scan(s, i);
    if i0 + 2 < s.len() && s[i0] == 0x23 && s[i0 + 1] == 0x21 && s[i0 + 2] == 0x5b {
        match attr_scan(s, i0 + 3) {
            Some((i4, a)) => {
                let i5 = ws_scan(s, i4);
                if i5 < s.len() && s[i5] == 0x5d {
                    Some((i5 + 1, a))
                } else {
                    None
                }
            },
            None => None,
        }
    } else {
        None
    }
}

/// A local attribute at `i`: `#[<attr>]`.
pub open spec fn local_attr_scan(s: Seq<u8>, i: int) -> Option<(int, (Seq<u8>, Option<
    crate::literal::LitV,
>))> {
    let i0 = ws_scan(s, i);
    if i0 + 1 < s.len() && s[i0] == 0x23 && s[i0 + 1] == 0x5b {
        match attr_scan(s, i0 + 2) {
            Some((i4, a)) => {
                let i5 = ws_scan(s, i4);
                if i5 < s.len() && s[i5] == 0x5d {
                    Some((i5 + 1, a))
                } else {
                    None
                }
            },
            None => None,
        }
    } else {
        None
    }
}

/// An inheritance clause at `i`: `from <key>`.
pub open spec fn inherit_scan(s: Seq<u8>, i: int) -> Option<(int, Seq<u8>)> {
    let i0 = ws_scan(s, i);
    if tag_nc_matches(s, i0, bytes_from()) {
        key_at(s, ws_scan(s, i0 + 4))
    } else {
        None
    }
}

/// Parse one attribute body: `<key> [= <literal>]`, exactly as
/// [`attr_scan`] describes.
pub fn p_attr(s: &[u8], i: usize) -> (r: Result<(usize, crate::lantern::Attribute), ParseError>)
    requires
        i <= s@.len(),
    ensures
        r is Ok <==> attr_scan(s@, i as int) is Some,
        r matches Ok((j, a)) ==> attr_scan(s@, i as int) == Some((j as int, a@)) && i < j
            <= s@.len(),
        r matches Err(e) ==> e is Syntax,
{
    let i0 = skip_ws(s, i);
    let (i1, key) = match p_key(s, i0) {
        Ok(v) => v,
        Err(e) => {
            return Err(e);
        },
    };
    let i2 = skip_ws(s, i1);
    if i2 < s.len() && s[i2] == 0x3d {
        match crate::literal::parse(s, i2 + 1) {
            Ok((i3, v)) => Ok((i3, crate::lantern::Attribute { key, value: Some(v) })),
            Err(e) => Err(e),
        }
    } else {
        Ok((i1, crate::lantern::Attribute { key, value: None }))
    }
}

/// Parse a global attribute: `#![<attr>]`, exactly as
/// [`global_attr_scan`] describes.
pub fn p_global_attr(s: &[u8], i: usize) -> (r: Result<
    (usize, crate::lantern::Attribute),
    ParseError,
>)
    requires
        i <= s@.len(),
    ensures
        r is Ok <==> global_attr_scan(s@, i as int) is Some,
        r matches Ok((j, a)) ==> global_attr_scan(s@, i as int) == Some((j as int, a@)) && i < j
            <= s@.len(),
        r matches Err(e) ==> e is Syntax,
{
    let i0 = skip_ws(s, i);
    let i1 = match p_byte(s, i0, 0x23) {
        Ok(j) => j,
        Err(e) => {
            return Err(e);
        },
    };
    let i2 = match p_byte(s, i1, 0x21) {
        Ok(j) => j,
        Err(e) => {
            return Err(e);
        },
    };
    let i3 = match p_byte(s, i2, 0x5b) {
        Ok(j) => j,
        Err(e) => {
            return Err(e);
        },
    };
    let (i4, a) = match p_attr(s, i3) {
        Ok(v) => v,
        Err(e) => {
            return Err(e);
        },
    };
    let i5 = skip_ws(s, i4);
    match p_byte(s, i5, 0x5d) {
        Ok(i6) => Ok((i6, a)),
        Err(e) => Err(e),
    }
}

/// Parse a local attribute: `#[<attr>]`, exactly as
/// [`local_attr_scan`] describes.
pub fn p_local_attr(s: &[u8], i: usize) -> (r: Result<
    (usize, crate::lantern::Attribute),
    ParseError,
>)
    requires
        i <= s@.len(),
    ensures
        r is Ok <==> local_attr_scan(s@, i as int) is Some,
        r matches Ok((j, a)) ==> local_attr_scan(s@, i as int) == Some((j as int, a@)) && i < j
            <= s@.len(),
        r matches Err(e) ==> e is Syntax,
{
    let i0 = skip_ws(s, i);
    let i1 = match p_byte(s, i0, 0x23) {
        Ok(j) => j,
        Err(e) => {
            return Err(e);
        },
    };
    let i2 = match p_byte(s, i1, 0x5b) {
        Ok(j) => j,
        Err(e) => {
            return Err(e);
        },
    };
    let (i3, a) = match p_attr(s, i2) {
        Ok(v) => v,
        Err(e) => {
            return Err(e);
        },
    };
    let i4 = skip_ws(s, i3);
    match p_byte(s, i4, 0x5d) {
        Ok(i5) => Ok((i5, a)),
        Err(e) => Err(e),
    }
}

/// Parse an inheritance clause: `from <key>`, exactly as
/// [`inherit_scan`] describes.
pub fn p_inherit(s: &[u8], i: usize) -> (r: Result<(usize, DefKey), ParseError>)
    requires
        i <= s@.len(),
    ensures
        r is Ok <==> inherit_scan(s@, i as int) is Some,
        r matches Ok((j, k)) ==> inherit_scan(s@, i as int) == Some((j as int, k@)) && i < j
            <= s@.len() && k.wf(),
        r matches Err(e) ==> e is Syntax,
{
    let from_kw: [u8; 4] = [0x66, 0x72, 0x6f, 0x6d];  // "from"
    proof {
        assert(from_kw@ =~= bytes_from());
    }
    let i0 = skip_ws(s, i);
    let i1 = match p_tag_nc(s, i0, from_kw.as_slice()) {
        Ok(j) => j,
        Err(e) => {
            return Err(e);
        },
    };
    let i2 = skip_ws(s, i1);
    match p_key(s, i2) {
        Ok(v) => Ok(v),
        Err(e) => Err(e),
    }
}

/// View of an attribute list.
pub open spec fn attrs_view(v: Seq<crate::lantern::Attribute>) -> Seq<
    (Seq<u8>, Option<crate::literal::LitV>),
> {
    Seq::new(v.len(), |i: int| v[i]@)
}

/// The keyword `namespace`.
pub open spec fn bytes_namespace() -> Seq<u8> {
    seq![0x6eu8, 0x61, 0x6d, 0x65, 0x73, 0x70, 0x61, 0x63, 0x65]
}

/// One scanned component declaration, by kind.
pub enum CompDeclV {
    Aspect(crate::parser::aspect::AspectDeclV),
    Card(crate::parser::card::CardDeclV),
    Deck(crate::parser::deck::DeckDeclV),
    Verb(crate::parser::verb::VerbDeclV),
    Ending(crate::parser::ending::EndingDeclV),
}

/// The record an aspect declaration builds: the scanned body folds to
/// a record whose fields these equations fix.
pub open spec fn aspect_built(
    q: crate::parser::aspect::AspectDeclV,
    a: crate::lantern::Aspect,
) -> bool {
    &&& crate::parser::aspect::asp_fold(q.stmts) is Ok
    &&& {
        let sem = crate::parser::aspect::asp_fold(q.stmts) -> Ok_0;
        &&& a.id@ == q.id
        &&& a.label@ == q.label
        &&& a.description@ == q.description
        &&& a.hidden == q.hidden
        &&& crate::lantern::opt_key(a.decays_to) == q.decays_to
        &&& crate::lantern::opt_bytes(a.icon) == sem.icon
        &&& crate::lantern::opt_bytes(a.verbicon) == sem.verbicon
        &&& crate::lantern::opt_induce(a.induces) == sem.induces
        &&& xts_view(a.xtriggers@) == sem.xtriggers
        &&& others_view(a.others@) == sem.others
    }
}

/// The record a card declaration builds.
pub open spec fn card_built(q: crate::parser::card::CardDeclV, cd: crate::lantern::Card) -> bool {
    &&& crate::parser::card::distinct_aspect_keys(q.sig.pairs)
    &&& crate::parser::card::card_fold(q.stmts) is Ok
    &&& {
        let sem = crate::parser::card::card_fold(q.stmts) -> Ok_0;
        &&& cd.id@ == q.sig.id
        &&& cd.label@ == q.sig.label
        &&& cd.description@ == q.sig.description
        &&& cd.hidden == q.sig.hidden
        &&& crate::parser::card::aspects_view(cd.aspects@) == q.sig.pairs
        &&& crate::lantern::opt_key(cd.decays_to) == q.decays_to
        &&& cd.lifetime == q.lifetime
        &&& crate::lantern::opt_bytes(cd.icon) == sem.icon
        &&& crate::lantern::opt_bytes(cd.verbicon) == sem.verbicon
        &&& cd.resaturate == (sem.resaturate == Some(true))
        &&& crate::lantern::opt_induce(cd.induces) == sem.induces
        &&& cd.unique == (sem.unique == Some(true))
        &&& crate::lantern::opt_key(cd.uniqueness_group) == sem.uniqueness_group
        &&& crate::parser::card::slots_view(cd.slots@) == sem.slots
        &&& xts_view(cd.xtriggers@) == sem.xtriggers
        &&& others_view(cd.others@) == sem.others
    }
}

/// The record a deck declaration builds.
pub open spec fn deck_built(q: crate::parser::deck::DeckDeclV, d: crate::lantern::Deck) -> bool {
    &&& crate::parser::deck::deck_fold(q.entries) is Ok
    &&& {
        let sem = crate::parser::deck::deck_fold(q.entries) -> Ok_0;
        &&& d.id@ == q.id
        &&& d.label@ == (match q.label {
            Some(l) => l,
            None => Seq::<u8>::empty(),
        })
        &&& d.description@ == (match q.description {
            Some(l) => l,
            None => Seq::<u8>::empty(),
        })
        &&& crate::lantern::opt_key(d.default) == sem.default
        &&& crate::parser::deck::cards_view(d.cards@) == sem.cards
        &&& d.is_portal_deck == sem.portal
    }
}

/// The record a verb declaration builds.
pub open spec fn verb_built(q: crate::parser::verb::VerbDeclV, v: crate::lantern::Verb) -> bool {
    &&& v.id@ == q.id
    &&& v.label@ == q.label
    &&& v.description@ == q.description
    &&& (match (v.slot, q.slot) {
        (Some(sl), Some(slv)) => sl@ == slv,
        (None, None) => true,
        _ => false,
    })
}

/// The record an ending declaration builds.
pub open spec fn ending_built(
    q: crate::parser::ending::EndingDeclV,
    e: crate::lantern::Ending,
) -> bool {
    &&& q.content is Object
    &&& {
        let fs = q.content -> Object_0;
        &&& crate::parser::ending::ending_sem(fs) is Ok
        &&& {
            let x = crate::parser::ending::ending_sem(fs) -> Ok_0;
            &&& e.id@ == q.id
            &&& e.label@ == q.label
            &&& e.description@ == q.description
            &&& e.image@ == x.0
            &&& e.music == x.1
            &&& e.animation == x.2
            &&& e.achievement@ == x.3
        }
    }
}

/// Whether a built component record matches its scanned declaration,
/// kind by kind.
pub open spec fn comp_built(d: CompDeclV, c: Component) -> bool {
    match (d, c) {
        (CompDeclV::Aspect(q), Component::Aspect(a)) => aspect_built(q, *a),
        (CompDeclV::Card(q), Component::Card(cd)) => card_built(q, *cd),
        (CompDeclV::Deck(q), Component::Deck(dk)) => deck_built(q, *dk),
        (CompDeclV::Verb(q), Component::Verb(v)) => verb_built(q, *v),
        (CompDeclV::Ending(q), Component::Ending(e)) => ending_built(q, *e),
        _ => false,
    }
}

/// The outcome of one alternative, or of the whole ordered
/// alternation: a successful declaration, a fatal semantic fault, or a
/// syntax mismatch that falls through.
pub enum CompOutcome {
    Hit(int, CompDeclV),
    Fatal,
    Miss,
}

pub open spec fn aspect_outcome(s: Seq<u8>, i: int) -> CompOutcome {
    match crate::parser::aspect::aspect_scan(s, i) {
        Some((j, d)) => if crate::parser::aspect::asp_fold(d.stmts) is Ok {
            CompOutcome::Hit(j, CompDeclV::Aspect(d))
        } else {
            CompOutcome::Fatal
        },
        None => CompOutcome::Miss,
    }
}

pub open spec fn card_outcome(s: Seq<u8>, i: int) -> CompOutcome {
    match crate::parser::card::card_sig_scan(s, i) {
        Some(sig) => if !crate::parser::card::distinct_aspect_keys(sig.pairs) {
            CompOutcome::Fatal
        } else {
            match crate::parser::card::card_scan(s, i) {
                Some((j, d)) => if crate::parser::card::card_fold(d.stmts) is Ok {
                    CompOutcome::Hit(j, CompDeclV::Card(d))
                } else {
                    CompOutcome::Fatal
                },
                None => CompOutcome::Miss,
            }
        },
        None => CompOutcome::Miss,
    }
}

pub open spec fn deck_outcome(s: Seq<u8>, i: int) -> CompOutcome {
    match crate::parser::deck::deck_scan(s, i) {
        Some((j, d)) => if crate::parser::deck::deck_fold(d.entries) is Ok {
            CompOutcome::Hit(j, CompDeclV::Deck(d))
        } else {
            CompOutcome::Fatal
        },
        None => CompOutcome::Miss,
    }
}

pub open spec fn verb_outcome(s: Seq<u8>, i: int) -> CompOutcome {
    match crate::parser::verb::verb_scan(s, i) {
        Some((j, d)) => CompOutcome::Hit(j, CompDeclV::Verb(d)),
        None => CompOutcome::Miss,
    }
}

pub open spec fn ending_outcome(s: Seq<u8>, i: int) -> CompOutcome {
    match crate::parser::ending::ending_scan(s, i) {
        Some((j, q)) => match q.content {
            crate::literal::LitV::Object(fs) => if crate::parser::ending::ending_sem(fs) is Ok {
                CompOutcome::Hit(j, CompDeclV::Ending(q))
            } else {
                CompOutcome::Fatal
            },
            _ => CompOutcome::Fatal,
        },
        None => CompOutcome::Miss,
    }
}

/// The ordered alternation: aspect, card, deck, verb, ending; only a
/// syntax mismatch falls through to the next kind.
pub open spec fn comp_scan(s: Seq<u8>, i: int) -> CompOutcome {
    match aspect_outcome(s, i) {
        CompOutcome::Miss => match card_outcome(s, i) {
            CompOutcome::Miss => match deck_outcome(s, i) {
                CompOutcome::Miss => match verb_outcome(s, i) {
                    CompOutcome::Miss => ending_outcome(s, i),
                    x => x,
                },
                x => x,
            },
            x => x,
        },
        x => x,
    }
}

/// Parse the component alternatives in order: aspect, card, deck,
/// verb, ending. A syntax mismatch falls through to the next kind; a
/// semantic `Fail` aborts at once.
///
/// Recipe and legacy records exist, merge, and resolve inheritance,
/// but the language defines no surface syntax for them: no statement
/// set or signature is documented for either kind, so no parser
/// stands here, and a declaration of either kind reads as leftover
/// text.
fn p_component_inner(s: &[u8], i: usize) -> (r: Result<(usize, Component), ParseError>)
    requires
        i <= s@.len(),
    ensures
        comp_scan(s@, i as int) is Miss ==> (r matches Err(e) && e is Syntax),
        comp_scan(s@, i as int) is Fatal ==> (r matches Err(e) && e matches ParseError::Fail {
            ..
        }),
        comp_scan(s@, i as int) matches CompOutcome::Hit(j, d) ==> (r matches Ok((jr, c)) && jr
            == j && comp_built(d, c)),
        r matches Ok((j, c)) ==> i < j <= s@.len(),
{
    match crate::parser::aspect::parse(s, i) {
        Ok(v) => {
            return Ok(v);
        },
        Err(e) => {
            if !(e.recoverable()) {
                return Err(e);
            }
        },
    }
    match crate::parser::card::parse(s, i) {
        Ok(v) => {
            return Ok(v);
        },
        Err(e) => {
            if !(e.recoverable()) {
                return Err(e);
            }
        },
    }
    match crate::parser::deck::parse(s, i) {
        Ok(v) => {
            return Ok(v);
        },
        Err(e) => {
            if !(e.recoverable()) {
                return Err(e);
            }
        },
    }
    match crate::parser::verb::parse(s, i) {
        Ok(v) => {
            return Ok(v);
        },
        Err(e) => {
            if !(e.recoverable()) {
                return Err(e);
            }
        },
    }
    crate::parser::ending::parse(s, i)
}

/// A scanned unit: a namespace with its nested units, or a component
/// declaration with its attributes and inheritance clause.
pub enum UnitScanV {
    Namespace {
        id: Seq<u8>,
        attrs: Seq<(Seq<u8>, Option<crate::literal::LitV>)>,
        units: Seq<UnitScanV>,
    },
    Component {
        attrs: Seq<(Seq<u8>, Option<crate::literal::LitV>)>,
        inherits: Option<Seq<u8>>,
        decl: CompDeclV,
    },
}

/// The outcome of scanning one unit.
pub enum UnitOutcome {
    Hit(int, UnitScanV),
    Fatal,
    Miss,
}

/// The outcome of scanning a namespace's unit list through its `}`.
pub enum UnitsOutcome {
    Hit(int, Seq<UnitScanV>),
    Fatal,
    Miss,
}

/// As many local attributes as stand at `i`, and where they end.
pub open spec fn lattrs_scan(s: Seq<u8>, i: int) -> (
    int,
    Seq<(Seq<u8>, Option<crate::literal::LitV>)>,
)
    decreases s.len() - i when 0 <= i <= s.len()
{
    match local_attr_scan(s, i) {
        Some((j, a)) => if i < j <= s.len() {
            let rest = lattrs_scan(s, j);
            (rest.0, seq![a] + rest.1)
        } else {
            // a scanned attribute always advances; this arm is never
            // taken
            (i, Seq::empty())
        },
        None => (i, Seq::empty()),
    }
}

/// One unit at `i`: local attributes, then a namespace block or a
/// component declaration with an optional `from` clause. A mismatch
/// anywhere inside, nested units included, is a `Miss`; a semantic
/// fault anywhere inside is `Fatal`.
pub open spec fn unit_scan(s: Seq<u8>, i: int) -> UnitOutcome
    decreases s.len() - i, 0int when 0 <= i <= s.len()
{
    let am = lattrs_scan(s, i);
    if !(i <= am.0 <= s.len()) {
        // attribute scanning never retreats; this arm is never taken
        UnitOutcome::Miss
    } else {
        let n0 = ws_scan(s, am.0);
        if !(am.0 <= n0 <= s.len()) {
            // whitespace skipping never retreats; never taken
            UnitOutcome::Miss
        } else if tag_nc_matches(s, n0, bytes_namespace()) {
            match key_at(s, ws_scan(s, n0 + 9)) {
                Some((j3, nsid)) => {
                    let j4 = ws_scan(s, j3);
                    if !(i < j4 + 1 <= s.len() + 1) {
                        // never taken
                        UnitOutcome::Miss
                    } else if j4 < s.len() && s[j4] == 0x7b {
                        match ns_units_scan(s, j4 + 1) {
                            UnitsOutcome::Hit(j, us) => UnitOutcome::Hit(
                                j,
                                UnitScanV::Namespace { id: nsid, attrs: am.1, units: us },
                            ),
                            UnitsOutcome::Fatal => UnitOutcome::Fatal,
                            UnitsOutcome::Miss => UnitOutcome::Miss,
                        }
                    } else {
                        UnitOutcome::Miss
                    }
                },
                None => UnitOutcome::Miss,
            }
        } else {
            let im: (int, Option<Seq<u8>>) = match inherit_scan(s, n0) {
                Some((j, k)) => (j, Some(k)),
                None => (n0, None),
            };
            if !(i <= im.0 <= s.len()) {
                // an inheritance clause never retreats; never taken
                UnitOutcome::Miss
            } else {
                match comp_scan(s, im.0) {
                    CompOutcome::Hit(j, d) => UnitOutcome::Hit(
                        j,
                        UnitScanV::Component { attrs: am.1, inherits: im.1, decl: d },
                    ),
                    CompOutcome::Fatal => UnitOutcome::Fatal,
                    CompOutcome::Miss => UnitOutcome::Miss,
                }
            }
        }
    }
}

/// A namespace's nested units from just past its `{` to just past its
/// `}`.
pub open spec fn ns_units_scan(s: Seq<u8>, i: int) -> UnitsOutcome
    decreases s.len() - i, 1int when 0 <= i <= s.len()
{
    let c0 = ws_scan(s, i);
    if !(i <= c0 <= s.len()) {
        // whitespace skipping never retreats; this arm is never taken
        UnitsOutcome::Miss
    } else if c0 < s.len() && s[c0] == 0x7d {
        UnitsOutcome::Hit(c0 + 1, Seq::empty())
    } else {
        match unit_scan(s, c0) {
            UnitOutcome::Hit(j, u) => if c0 < j <= s.len() {
                match ns_units_scan(s, j) {
                    UnitsOutcome::Hit(j2, rest) => UnitsOutcome::Hit(j2, seq![u] + rest),
                    x => x,
                }
            } else {
                // a scanned unit always advances; never taken
                UnitsOutcome::Miss
            },
            UnitOutcome::Fatal => UnitsOutcome::Fatal,
            UnitOutcome::Miss => UnitsOutcome::Miss,
        }
    }
}

/// Prefix the units of a unit-list outcome.
pub open spec fn units_cat(pre: Seq<UnitScanV>, o: UnitsOutcome) -> UnitsOutcome {
    match o {
        UnitsOutcome::Hit(j, us) => UnitsOutcome::Hit(j, pre + us),
        x => x,
    }
}

pub proof fn lemma_units_cat_empty(o: UnitsOutcome)
    ensures
        units_cat(Seq::empty(), o) == o,
{
    match o {
        UnitsOutcome::Hit(j, us) => {
            assert(Seq::<UnitScanV>::empty() + us =~= us);
        },
        _ => {},
    }
}

pub proof fn lemma_units_cat_assoc(a: Seq<UnitScanV>, b: Seq<UnitScanV>, o: UnitsOutcome)
    ensures
        units_cat(a, units_cat(b, o)) == units_cat(a + b, o),
{
    match o {
        UnitsOutcome::Hit(j, us) => {
            assert(a + (b + us) =~= (a + b) + us);
        },
        _ => {},
    }
}

/// Whether a built unit tree matches its scanned form, node by node.
pub open spec fn unit_built(v: UnitScanV, u: Unit) -> bool
    decreases u,
{
    match u {
        Unit::Namespace { id, attrs, units } => v matches UnitScanV::Namespace {
            id: vid,
            attrs: vattrs,
            units: vunits,
        } && id@ == vid && valid_key(id@) && attrs_view(attrs@) == vattrs && vunits.len()
            == units@.len() && (forall|k: int|
            0 <= k < units@.len() ==> unit_built(vunits[k], #[trigger] units@[k])),
        Unit::ComponentUnit { id, attrs, component, inherits } => v matches UnitScanV::Component {
            attrs: vattrs,
            inherits: vinh,
            decl,
        } && attrs_view(attrs@) == vattrs && crate::lantern::opt_key(inherits) == vinh && (
        inherits matches Some(k) ==> valid_key(k@)) && comp_built(decl, component) && id@
            == component.spec_id(),
    }
}

/// Parse one unit: local attributes, then either a namespace
/// (recursing into nested units) or a component declaration with an
/// optional `from` clause. A component unit's id is its record's id;
/// a namespace's id is a well-formed identifier.
/// Parse as many local attributes as stand at `i`, exactly as
/// [`lattrs_scan`] describes.
#[verifier::loop_isolation(false)]
fn p_lattrs(s: &[u8], i: usize) -> (r: (usize, Vec<crate::lantern::Attribute>))
    requires
        i <= s@.len(),
    ensures
        i <= r.0 <= s@.len(),
        lattrs_scan(s@, i as int) == (r.0 as int, attrs_view(r.1@)),
{
    let mut attrs: Vec<crate::lantern::Attribute> = Vec::new();
    let mut cur: usize = i;
    proof {
        assert(attrs_view(attrs@) =~= Seq::<(Seq<u8>, Option<crate::literal::LitV>)>::empty());
        assert(attrs_view(attrs@) + lattrs_scan(s@, i as int).1 =~= lattrs_scan(
            s@,
            i as int,
        ).1);
    }
    loop
        invariant
            i <= cur <= s@.len(),
            lattrs_scan(s@, i as int).0 == lattrs_scan(s@, cur as int).0,
            lattrs_scan(s@, i as int).1 == attrs_view(attrs@) + lattrs_scan(s@, cur as int).1,
        decreases s@.len() - cur,
    {
        match p_local_attr(s, cur) {
            Ok((j, a)) => {
                proof {
                    assert(attrs_view(attrs@) + (seq![a@] + lattrs_scan(s@, j as int).1) =~= (
                    attrs_view(attrs@) + seq![a@]) + lattrs_scan(s@, j as int).1);
                    assert(attrs_view(attrs@) + seq![a@] =~= attrs_view(attrs@.push(a)));
                }
                attrs.push(a);
                cur = j;
            },
            Err(_) => {
                break;
            },
        }
    }
    proof {
        assert(lattrs_scan(s@, cur as int) == (cur as int, Seq::<
            (Seq<u8>, Option<crate::literal::LitV>),
        >::empty()));
        assert(attrs_view(attrs@) + Seq::<(Seq<u8>, Option<crate::literal::LitV>)>::empty()
            =~= attrs_view(attrs@));
    }
    (cur, attrs)
}

/// Parse a namespace's nested units through the closing `}`, exactly
/// as [`ns_units_scan`] describes.
#[verifier::rlimit(80)]
#[verifier::loop_isolation(false)]
fn p_ns_units(s: &[u8], i: usize) -> (r: Result<(usize, Vec<Unit>), ParseError>)
    requires
        0 < i <= s@.len(),
    ensures
        ns_units_scan(s@, i as int) is Miss ==> (r matches Err(e) && e is Syntax),
        ns_units_scan(s@, i as int) is Fatal ==> (r matches Err(e)
            && e matches ParseError::Fail { .. }),
        ns_units_scan(s@, i as int) matches UnitsOutcome::Hit(j, vs) ==> (r matches Ok(
            (jr, us),
        ) && jr == j && vs.len() == us@.len() && (forall|k: int|
            0 <= k < us@.len() ==> unit_built(vs[k], #[trigger] us@[k]))),
        r matches Ok((j, us)) ==> i <= j <= s@.len(),
    decreases s@.len() - i, 1int,
{
    let mut units: Vec<Unit> = Vec::new();
    let ghost mut gviews: Seq<UnitScanV> = Seq::empty();
    let mut cur2: usize = i;
    proof {
        lemma_units_cat_empty(ns_units_scan(s@, i as int));
    }
    loop
        invariant
            i <= cur2 <= s@.len(),
            units_cat(gviews, ns_units_scan(s@, cur2 as int)) == ns_units_scan(s@, i as int),
            gviews.len() == units@.len(),
            forall|k: int| 0 <= k < units@.len() ==> unit_built(
                gviews[k],
                #[trigger] units@[k],
            ),
        decreases s@.len() - cur2,
    {
        let c0 = skip_ws(s, cur2);
        if c0 < s.len() && s[c0] == 0x7d {
            proof {
                assert(ns_units_scan(s@, cur2 as int) == UnitsOutcome::Hit(
                    c0 + 1,
                    Seq::<UnitScanV>::empty(),
                ));
                assert(gviews + Seq::<UnitScanV>::empty() =~= gviews);
            }
            return Ok((c0 + 1, units));
        }
        match p_unit(s, c0) {
            Ok((j6, u)) => {
                proof {
                    let v = unit_scan(s@, c0 as int) -> Hit_1;
                    assert(ns_units_scan(s@, cur2 as int) == units_cat(
                        seq![v],
                        ns_units_scan(s@, j6 as int),
                    ));
                    lemma_units_cat_assoc(gviews, seq![v], ns_units_scan(s@, j6 as int));
                    assert(gviews + seq![v] =~= gviews.push(v));
                    gviews = gviews.push(v);
                }
                units.push(u);
                cur2 = j6;
            },
            Err(e) => {
                return Err(e);
            },
        }
    }
}

/// Parse one unit: local attributes, then either a namespace
/// (recursing into nested units) or a component declaration with an
/// optional `from` clause, exactly as [`unit_scan`] describes.
#[verifier::loop_isolation(false)]
pub fn p_unit(s: &[u8], i: usize) -> (r: Result<(usize, Unit), ParseError>)
    requires
        i <= s@.len(),
    ensures
        unit_scan(s@, i as int) is Miss ==> (r matches Err(e) && e is Syntax),
        unit_scan(s@, i as int) is Fatal ==> (r matches Err(e) && e matches ParseError::Fail {
            ..
        }),
        unit_scan(s@, i as int) matches UnitOutcome::Hit(j, v) ==> (r matches Ok((jr, u)) && jr
            == j && unit_built(v, u)),
        r matches Ok((j, u)) ==> i < j <= s@.len() && (match u {
            Unit::ComponentUnit { id, component, inherits, .. } => id@ == component.spec_id()
                && (inherits matches Some(k) ==> valid_key(k@)),
            Unit::Namespace { id, .. } => valid_key(id@),
        }),
    decreases s@.len() - i, 0int,
{
    let namespace_kw: [u8; 9] = [0x6e, 0x61, 0x6d, 0x65, 0x73, 0x70, 0x61, 0x63, 0x65];
    proof {
        assert(namespace_kw@ =~= bytes_namespace());
    }
    let am = p_lattrs(s, i);
    let cur = am.0;
    let attrs = am.1;
    let ghost gattrs = attrs_view(attrs@);
    let n0 = skip_ws(s, cur);
    match p_tag_nc(s, n0, namespace_kw.as_slice()) {
        Ok(j1) => {
            // a namespace block
            let j2 = skip_ws(s, j1);
            let (j3, ns_id) = match p_key(s, j2) {
                Ok(v) => v,
                Err(e) => {
                    return Err(e);
                },
            };
            let j4 = skip_ws(s, j3);
            let j5 = match p_byte(s, j4, 0x7b) {
                Ok(j) => j,
                Err(e) => {
                    return Err(e);
                },
            };
            match p_ns_units(s, j5) {
                Ok((j6, units)) => {
                    let u = Unit::Namespace { id: ns_id, attrs, units };
                    Ok((j6, u))
                },
                Err(e) => Err(e),
            }
        },
        Err(_) => {
            // a component declaration
            let (c1, inherits) = match p_inherit(s, n0) {
                Ok((j, k)) => (j, Some(k)),
                Err(_) => (n0, None),
            };
            match p_component_inner(s, c1) {
                Ok((c2, component)) => {
                    let id = component.id();
                    Ok(
                        (
                            c2,
                            Unit::ComponentUnit { id, attrs, component, inherits },
                        ),
                    )
                },
                Err(e) => Err(e),
            }
        },
    }
}

/// As many global attributes as stand at `i`, and where they end.
pub open spec fn gattrs_scan(s: Seq<u8>, i: int) -> (
    int,
    Seq<(Seq<u8>, Option<crate::literal::LitV>)>,
)
    decreases s.len() - i when 0 <= i <= s.len()
{
    match global_attr_scan(s, i) {
        Some((j, a)) => if i < j <= s.len() {
            let rest = gattrs_scan(s, j);
            (rest.0, seq![a] + rest.1)
        } else {
            // a scanned attribute always advances; this arm is never
            // taken
            (i, Seq::empty())
        },
        None => (i, Seq::empty()),
    }
}

/// The outcome of scanning one whole file.
pub enum FileOutcome {
    /// The entire input consumed: the global attributes, then the
    /// top-level units.
    Hit(Seq<(Seq<u8>, Option<crate::literal::LitV>)>, Seq<UnitScanV>),
    /// A unit matched its grammar but violated a record invariant.
    Fatal,
    /// Text remained that no unit matches.
    Stuck,
}

/// The top-level unit list from `i` to the end of input.
pub open spec fn file_units_scan(s: Seq<u8>, i: int) -> FileOutcome
    decreases s.len() - i when 0 <= i <= s.len()
{
    let c0 = ws_scan(s, i);
    if !(i <= c0 <= s.len()) {
        // whitespace skipping never retreats; this arm is never taken
        FileOutcome::Stuck
    } else if c0 >= s.len() {
        FileOutcome::Hit(Seq::empty(), Seq::empty())
    } else {
        match unit_scan(s, c0) {
            UnitOutcome::Hit(j, u) => if c0 < j <= s.len() {
                match file_units_scan(s, j) {
                    FileOutcome::Hit(attrs, rest) => FileOutcome::Hit(attrs, seq![u] + rest),
                    x => x,
                }
            } else {
                // a scanned unit always advances; never taken
                FileOutcome::Stuck
            },
            UnitOutcome::Fatal => FileOutcome::Fatal,
            UnitOutcome::Miss => FileOutcome::Stuck,
        }
    }
}

/// One whole file: `global_attr* unit*`, consuming the entire input.
pub open spec fn crucible_scan(s: Seq<u8>) -> FileOutcome {
    let ga = gattrs_scan(s, 0);
    if !(0 <= ga.0 <= s.len()) {
        // attribute scanning stays in bounds; this arm is never taken
        FileOutcome::Stuck
    } else {
        match file_units_scan(s, ga.0) {
            FileOutcome::Hit(_, us) => FileOutcome::Hit(ga.1, us),
            x => x,
        }
    }
}

/// Prefix the units of a file outcome.
pub open spec fn file_cat(pre: Seq<UnitScanV>, o: FileOutcome) -> FileOutcome {
    match o {
        FileOutcome::Hit(attrs, us) => FileOutcome::Hit(attrs, pre + us),
        x => x,
    }
}

pub proof fn lemma_file_cat_empty(o: FileOutcome)
    ensures
        file_cat(Seq::empty(), o) == o,
{
    match o {
        FileOutcome::Hit(attrs, us) => {
            assert(Seq::<UnitScanV>::empty() + us =~= us);
        },
        _ => {},
    }
}

pub proof fn lemma_file_cat_assoc(a: Seq<UnitScanV>, b: Seq<UnitScanV>, o: FileOutcome)
    ensures
        file_cat(a, file_cat(b, o)) == file_cat(a + b, o),
{
    match o {
        FileOutcome::Hit(attrs, us) => {
            assert(a + (b + us) =~= (a + b) + us);
        },
        _ => {},
    }
}

/// Parse as many global attributes as stand at `i`, exactly as
/// [`gattrs_scan`] describes.
#[verifier::loop_isolation(false)]
fn p_gattrs(s: &[u8], i: usize) -> (r: (usize, Vec<crate::lantern::Attribute>))
    requires
        i <= s@.len(),
    ensures
        i <= r.0 <= s@.len(),
        gattrs_scan(s@, i as int) == (r.0 as int, attrs_view(r.1@)),
{
    let mut attrs: Vec<crate::lantern::Attribute> = Vec::new();
    let mut cur: usize = i;
    proof {
        assert(attrs_view(attrs@) =~= Seq::<(Seq<u8>, Option<crate::literal::LitV>)>::empty());
        assert(attrs_view(attrs@) + gattrs_scan(s@, i as int).1 =~= gattrs_scan(
            s@,
            i as int,
        ).1);
    }
    loop
        invariant
            i <= cur <= s@.len(),
            gattrs_scan(s@, i as int).0 == gattrs_scan(s@, cur as int).0,
            gattrs_scan(s@, i as int).1 == attrs_view(attrs@) + gattrs_scan(s@, cur as int).1,
        decreases s@.len() - cur,
    {
        match p_global_attr(s, cur) {
            Ok((j, a)) => {
                proof {
                    assert(attrs_view(attrs@) + (seq![a@] + gattrs_scan(s@, j as int).1) =~= (
                    attrs_view(attrs@) + seq![a@]) + gattrs_scan(s@, j as int).1);
                    assert(attrs_view(attrs@) + seq![a@] =~= attrs_view(attrs@.push(a)));
                }
                attrs.push(a);
                cur = j;
            },
            Err(_) => {
                break;
            },
        }
    }
    proof {
        assert(gattrs_scan(s@, cur as int) == (cur as int, Seq::<
            (Seq<u8>, Option<crate::literal::LitV>),
        >::empty()));
        assert(attrs_view(attrs@) + Seq::<(Seq<u8>, Option<crate::literal::LitV>)>::empty()
            =~= attrs_view(attrs@));
    }
    (cur, attrs)
}

/// Parse the top-level units from `i` to the end of input, exactly as
/// [`file_units_scan`] describes; text no unit matches is a fatal
/// `NonEmpty` error.
#[verifier::rlimit(80)]
#[verifier::loop_isolation(false)]
fn p_file_units(s: &[u8], i: usize) -> (r: Result<Vec<Unit>, ParseError>)
    requires
        i <= s@.len(),
    ensures
        file_units_scan(s@, i as int) is Stuck ==> (r matches Err(e)
            && e matches ParseError::NonEmpty { .. }),
        file_units_scan(s@, i as int) is Fatal ==> (r matches Err(e)
            && e matches ParseError::Fail { .. }),
        file_units_scan(s@, i as int) matches FileOutcome::Hit(x, vs) ==> (r matches Ok(us)
            && vs.len() == us@.len() && (forall|k: int|
            0 <= k < us@.len() ==> unit_built(vs[k], #[trigger] us@[k]))),
{
    let mut units: Vec<Unit> = Vec::new();
    let ghost mut gviews: Seq<UnitScanV> = Seq::empty();
    let mut cur: usize = i;
    proof {
        lemma_file_cat_empty(file_units_scan(s@, i as int));
    }
    loop
        invariant
            i <= cur <= s@.len(),
            file_cat(gviews, file_units_scan(s@, cur as int)) == file_units_scan(s@, i as int),
            gviews.len() == units@.len(),
            forall|k: int| 0 <= k < units@.len() ==> unit_built(
                gviews[k],
                #[trigger] units@[k],
            ),
        decreases s@.len() - cur,
    {
        let c0 = skip_ws(s, cur);
        if c0 >= s.len() {
            proof {
                assert(file_units_scan(s@, cur as int) == FileOutcome::Hit(
                    Seq::<(Seq<u8>, Option<crate::literal::LitV>)>::empty(),
                    Seq::<UnitScanV>::empty(),
                ));
                assert(gviews + Seq::<UnitScanV>::empty() =~= gviews);
            }
            return Ok(units);
        }
        match p_unit(s, c0) {
            Ok((j, u)) => {
                proof {
                    let v = unit_scan(s@, c0 as int) -> Hit_1;
                    assert(file_units_scan(s@, cur as int) == file_cat(
                        seq![v],
                        file_units_scan(s@, j as int),
                    ));
                    lemma_file_cat_assoc(gviews, seq![v], file_units_scan(s@, j as int));
                    assert(gviews + seq![v] =~= gviews.push(v));
                    gviews = gviews.push(v);
                }
                units.push(u);
                cur = j;
            },
            Err(e) => {
                match e {
                    ParseError::Syntax { pos } => {
                        // unparsed text remains: the file is rejected
                        return Err(ParseError::NonEmpty { pos });
                    },
                    _ => {
                        return Err(e);
                    },
                }
            },
        }
    }
}

/// Parse one whole file: global attributes, then units, consuming the
/// entire input, exactly as [`crucible_scan`] describes. Text after
/// the last recognized unit is a fatal `NonEmpty` error; a unit's
/// semantic `Fail` passes through; a failed file never fails with a
/// bare backtrackable mismatch.
pub fn p_crucible(s: &[u8]) -> (r: Result<Crucible, ParseError>)
    ensures
        crucible_scan(s@) matches FileOutcome::Hit(attrs, us) ==> (r matches Ok(c)
            && attrs_view(c.attributes@) == attrs && us.len() == c.units@.len() && (forall|
            k: int,
        |
            0 <= k < c.units@.len() ==> unit_built(us[k], #[trigger] c.units@[k]))),
        crucible_scan(s@) is Fatal ==> (r matches Err(e) && e matches ParseError::Fail { .. }),
        crucible_scan(s@) is Stuck ==> (r matches Err(e) && e matches ParseError::NonEmpty {
            ..
        }),
        r matches Err(e) ==> !(e is Syntax),
        r matches Ok(c) ==> forall|k: int| 0 <= k < c.units@.len() ==> (
        match #[trigger] c.units@[k] {
            Unit::ComponentUnit { id, component, inherits, .. } => id@ == component.spec_id()
                && (inherits matches Some(pk) ==> valid_key(pk@)),
            Unit::Namespace { id, .. } => valid_key(id@),
        }),
{
    let ga = p_gattrs(s, 0);
    let attributes = ga.1;
    match p_file_units(s, ga.0) {
        Ok(units) => {
            proof {
                if crucible_scan(s@) is Hit {
                    let us = crucible_scan(s@) -> Hit_1;
                    assert forall|k: int| 0 <= k < units@.len() implies (
                    match #[trigger] units@[k] {
                        Unit::ComponentUnit { id, component, inherits, .. } => id@
                            == component.spec_id() && (inherits matches Some(pk) ==> valid_key(
                            pk@,
                        )),
                        Unit::Namespace { id, .. } => valid_key(id@),
                    }) by {
                        assert(unit_built(us[k], units@[k]));
                        lemma_unit_built_wf(us[k], units@[k]);
                    }
                }
            }
            Ok(Crucible { attributes, units })
        },
        Err(e) => Err(e),
    }
}

/// A built unit's ids are consistent and well-formed.
proof fn lemma_unit_built_wf(v: UnitScanV, u: Unit)
    requires
        unit_built(v, u),
    ensures
        match u {
            Unit::ComponentUnit { id, component, inherits, .. } => id@ == component.spec_id()
                && (inherits matches Some(pk) ==> valid_key(pk@)),
            Unit::Namespace { id, .. } => valid_key(id@),
        },
{
    match u {
        Unit::ComponentUnit { id, component, inherits, .. } => {
            match v {
                UnitScanV::Component { attrs, inherits: vinh, decl } => {
                    match inherits {
                        Some(pk) => {
                            assert(crate::lantern::opt_key(inherits) == vinh);
                        },
                        None => {},
                    }
                },
                _ => {},
            }
        },
        Unit::Namespace { id, .. } => {},
    }
}

} // verus!
