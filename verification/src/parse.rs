//! Parsing of the control files' contents: whitespace-separated decimal
//! integer lists, a single trimmed decimal value, and the decimal policy
//! identifier embedded in a domain directory name.
//!
//! The list and value grammars are over bytes (the raw file contents); the
//! identifier grammar is over the characters of the directory path.

use vstd::prelude::*;

verus! {

/// ASCII whitespace, as the kernel's control files use it.
pub open spec fn is_ws(b: u8) -> bool {
    b == 32 || 9 <= b <= 13
}

pub open spec fn is_digit(b: u8) -> bool {
    48 <= b <= 57
}

/// End (exclusive) of the maximal run of non-whitespace bytes starting at `i`.
pub open spec fn tok_end(s: Seq<u8>, i: int) -> int
    decreases s.len() - i,
{
    if i < 0 || i >= s.len() || is_ws(s[i]) {
        i
    } else {
        tok_end(s, i + 1)
    }
}

pub proof fn lemma_tok_end(s: Seq<u8>, i: int)
    requires
        0 <= i <= s.len(),
    ensures
        i <= tok_end(s, i) <= s.len(),
        forall|j: int| i <= j < tok_end(s, i) ==> !is_ws(s[j]),
        tok_end(s, i) == s.len() || is_ws(s[tok_end(s, i)]),
    decreases s.len() - i,
{
    if i < s.len() && !is_ws(s[i]) {
        lemma_tok_end(s, i + 1);
    }
}

/// The whitespace-separated tokens of `s`, starting at position `i`.
pub open spec fn tokens_from(s: Seq<u8>, i: int) -> Seq<Seq<u8>>
    decreases s.len() - i,
    when 0 <= i
    via tokens_from_decreases
{
    if i >= s.len() {
        Seq::empty()
    } else if is_ws(s[i]) {
        tokens_from(s, i + 1)
    } else {
        seq![s.subrange(i, tok_end(s, i))] + tokens_from(s, tok_end(s, i))
    }
}

#[via_fn]
proof fn tokens_from_decreases(s: Seq<u8>, i: int) {
    if 0 <= i < s.len() && !is_ws(s[i]) {
        lemma_tok_end(s, i + 1);
    }
}

/// The whitespace-separated tokens of `s`.
pub open spec fn tokens(s: Seq<u8>) -> Seq<Seq<u8>> {
    tokens_from(s, 0)
}

pub open spec fn all_digits(t: Seq<u8>) -> bool {
    forall|k: int| 0 <= k < t.len() ==> is_digit(#[trigger] t[k])
}

/// The number the digit bytes of `t` denote, read in base ten.
pub open spec fn dec_val(t: Seq<u8>) -> int
    decreases t.len(),
{
    if t.len() == 0 {
        0
    } else {
        10 * dec_val(t.drop_last()) + (t.last() - 48)
    }
}

pub open spec fn has_sign(t: Seq<u8>) -> bool {
    t.len() > 0 && (t[0] == 43 || t[0] == 45)
}

pub open spec fn is_neg(t: Seq<u8>) -> bool {
    t.len() > 0 && t[0] == 45
}

/// The digits of a number token, the optional leading sign stripped.
pub open spec fn num_body(t: Seq<u8>) -> Seq<u8> {
    if has_sign(t) {
        t.skip(1)
    } else {
        t
    }
}

/// An optional `+` or `-` sign followed by at least one decimal digit.
pub open spec fn valid_num_token(t: Seq<u8>) -> bool {
    num_body(t).len() > 0 && all_digits(num_body(t))
}

/// The signed value a valid number token denotes.
pub open spec fn token_val(t: Seq<u8>) -> int {
    if is_neg(t) {
        -dec_val(num_body(t))
    } else {
        dec_val(num_body(t))
    }
}

pub proof fn lemma_dec_val_nonneg(t: Seq<u8>)
    requires
        all_digits(t),
    ensures
        dec_val(t) >= 0,
    decreases t.len(),
{
    if t.len() > 0 {
        lemma_dec_val_nonneg(t.drop_last());
    }
}

/// Reading more digits can only grow the denoted value.
pub proof fn lemma_dec_val_take_mono(t: Seq<u8>, j: int)
    requires
        all_digits(t),
        0 <= j <= t.len(),
    ensures
        0 <= dec_val(t.take(j)) <= dec_val(t),
    decreases t.len(),
{
    lemma_dec_val_nonneg(t.take(j));
    if j == t.len() {
        assert(t.take(j) =~= t);
    } else {
        assert(t.drop_last().take(j) =~= t.take(j));
        lemma_dec_val_take_mono(t.drop_last(), j);
        lemma_dec_val_nonneg(t.drop_last());
    }
}

fn ws_byte(b: u8) -> (r: bool)
    ensures
        r == is_ws(b),
{
    b == 32 || (9 <= b && b <= 13)
}

/// End (exclusive) of the token starting at `start`, scanning forward.
#[verifier::loop_isolation(false)]
pub fn scan_token_end(s: &[u8], start: usize) -> (r: usize)
    requires
        start <= s.len(),
    ensures
        r as int == tok_end(s@, start as int),
        start <= r <= s.len(),
{
    proof {
        lemma_tok_end(s@, start as int);
    }
    let mut j = start;
    while j < s.len() && !ws_byte(s[j])
        invariant
            start <= j <= s.len(),
            tok_end(s@, start as int) == tok_end(s@, j as int),
        decreases s.len() - j,
    {
        j += 1;
    }
    j
}

/// The magnitude of the digit run `s[start..end]`, when it is one and fits `u64`.
#[verifier::loop_isolation(false)]
pub fn parse_mag(s: &[u8], start: usize, end: usize) -> (r: Option<u64>)
    requires
        start <= end <= s.len(),
    ensures
        (r is Some <==> {
            let t = s@.subrange(start as int, end as int);
            t.len() > 0 && all_digits(t) && dec_val(t) <= u64::MAX
        }),
        (r matches Some(m) ==> m == dec_val(s@.subrange(start as int, end as int))),
{
    let ghost t = s@.subrange(start as int, end as int);
    if start == end {
        return None;
    }
    let mut mag: u128 = 0;
    let mut k = start;
    while k < end
        invariant
            start <= k <= end,
            all_digits(t.take(k - start)),
            mag == dec_val(t.take(k - start)),
            mag <= u64::MAX,
        decreases end - k,
    {
        let b = s[k];
        if b < 48 || b > 57 {
            assert(!is_digit(t[k - start]));
            return None;
        }
        proof {
            assert(t.take(k - start + 1).drop_last() =~= t.take(k - start));
        }
        mag = mag * 10 + (b - 48) as u128;
        if mag > u64::MAX as u128 {
            proof {
                if all_digits(t) {
                    lemma_dec_val_take_mono(t, k - start + 1);
                }
            }
            return None;
        }
        k += 1;
    }
    proof {
        assert(t.take(end - start) =~= t);
    }
    Some(mag as u64)
}

/// A number token valid for `isize`: well-formed and within the type's range.
pub open spec fn isize_token_ok(t: Seq<u8>) -> bool {
    valid_num_token(t) && isize::MIN <= token_val(t) <= isize::MAX
}

/// A number token valid for `usize`: well-formed, unsigned, within range.
pub open spec fn usize_token_ok(t: Seq<u8>) -> bool {
    valid_num_token(t) && !is_neg(t) && token_val(t) <= usize::MAX
}

/// Parses the token `s[start..end]` as an `isize`.
pub fn parse_isize_token(s: &[u8], start: usize, end: usize) -> (r: Option<isize>)
    requires
        start <= end <= s.len(),
    ensures
        (r is Some <==> isize_token_ok(s@.subrange(start as int, end as int))),
        (r matches Some(v) ==> v as int == token_val(s@.subrange(start as int, end as int))),
{
    let ghost t = s@.subrange(start as int, end as int);
    if start == end {
        return None;
    }
    let b0 = s[start];
    let neg = b0 == 45;
    let dstart = if b0 == 43 || b0 == 45 {
        start + 1
    } else {
        start
    };
    proof {
        assert(num_body(t) =~= s@.subrange(dstart as int, end as int));
    }
    let mag = match parse_mag(s, dstart, end) {
        Some(m) => m,
        None => {
            proof {
                if valid_num_token(t) {
                    lemma_dec_val_nonneg(num_body(t));
                }
            }
            return None;
        },
    };
    if neg {
        if mag <= isize::MAX as u64 {
            Some(-(mag as isize))
        } else if mag == isize::MAX as u64 + 1 {
            Some(isize::MIN)
        } else {
            None
        }
    } else {
        if mag <= isize::MAX as u64 {
            Some(mag as isize)
        } else {
            None
        }
    }
}

/// Parses the token `s[start..end]` as a `usize`.
pub fn parse_usize_token(s: &[u8], start: usize, end: usize) -> (r: Option<usize>)
    requires
        start <= end <= s.len(),
    ensures
        (r is Some <==> usize_token_ok(s@.subrange(start as int, end as int))),
        (r matches Some(v) ==> v as int == token_val(s@.subrange(start as int, end as int))),
{
    let ghost t = s@.subrange(start as int, end as int);
    if start == end {
        return None;
    }
    let b0 = s[start];
    if b0 == 45 {
        return None;
    }
    let dstart = if b0 == 43 {
        start + 1
    } else {
        start
    };
    proof {
        assert(num_body(t) =~= s@.subrange(dstart as int, end as int));
    }
    let mag = match parse_mag(s, dstart, end) {
        Some(m) => m,
        None => {
            proof {
                if valid_num_token(t) {
                    lemma_dec_val_nonneg(num_body(t));
                }
            }
            return None;
        },
    };
    if mag <= usize::MAX as u64 {
        Some(mag as usize)
    } else {
        None
    }
}

/// Every token of `s` is a valid `isize` number token.
pub open spec fn isize_list_ok(s: Seq<u8>) -> bool {
    forall|k: int| 0 <= k < tokens(s).len() ==> isize_token_ok(#[trigger] tokens(s)[k])
}

/// Every token of `s` is a valid `usize` number token.
pub open spec fn usize_list_ok(s: Seq<u8>) -> bool {
    forall|k: int| 0 <= k < tokens(s).len() ==> usize_token_ok(#[trigger] tokens(s)[k])
}

/// The values the tokens of `s` denote, as `isize` (meaningful when the list is valid).
pub open spec fn isize_vals(s: Seq<u8>) -> Seq<isize> {
    tokens(s).map_values(|t: Seq<u8>| token_val(t) as isize)
}

/// The values the tokens of `s` denote, as `usize` (meaningful when the list is valid).
pub open spec fn usize_vals(s: Seq<u8>) -> Seq<usize> {
    tokens(s).map_values(|t: Seq<u8>| token_val(t) as usize)
}

/// Parses a whitespace-separated list of `isize` values, such as a frequency table.
#[verifier::loop_isolation(false)]
pub fn parse_isize_list(s: &[u8]) -> (r: Option<Vec<isize>>)
    ensures
        (r is Some <==> isize_list_ok(s@)),
        (r matches Some(v) ==> v@ == isize_vals(s@)),
{
    let mut out: Vec<isize> = Vec::new();
    let ghost mut done: Seq<Seq<u8>> = Seq::empty();
    let mut i: usize = 0;
    while i < s.len()
        invariant
            0 <= i <= s.len(),
            done.len() == out@.len(),
            tokens(s@) =~= done + tokens_from(s@, i as int),
            forall|k: int| 0 <= k < done.len() ==> isize_token_ok(#[trigger] done[k]),
            forall|k: int| 0 <= k < done.len() ==> out@[k] as int == token_val(
                #[trigger] done[k],
            ),
        decreases s.len() - i,
    {
        if ws_byte(s[i]) {
            i += 1;
        } else {
            let j = scan_token_end(s, i);
            proof {
                lemma_tok_end(s@, i as int);
                assert(tokens_from(s@, i as int) =~= seq![
                    s@.subrange(i as int, j as int),
                ] + tokens_from(s@, j as int));
                assert(tokens(s@)[done.len() as int] == s@.subrange(i as int, j as int));
            }
            match parse_isize_token(s, i, j) {
                Some(v) => {
                    out.push(v);
                    proof {
                        done = done.push(s@.subrange(i as int, j as int));
                    }
                },
                None => {
                    assert(!isize_token_ok(tokens(s@)[done.len() as int]));
                    return None;
                },
            }
            i = j;
        }
    }
    proof {
        assert(tokens(s@) =~= done);
        assert(out@ =~= isize_vals(s@));
    }
    Some(out)
}

/// Parses a whitespace-separated list of `usize` values, such as a core list.
#[verifier::loop_isolation(false)]
pub fn parse_usize_list(s: &[u8]) -> (r: Option<Vec<usize>>)
    ensures
        (r is Some <==> usize_list_ok(s@)),
        (r matches Some(v) ==> v@ == usize_vals(s@)),
{
    let mut out: Vec<usize> = Vec::new();
    let ghost mut done: Seq<Seq<u8>> = Seq::empty();
    let mut i: usize = 0;
    while i < s.len()
        invariant
            0 <= i <= s.len(),
            done.len() == out@.len(),
            tokens(s@) =~= done + tokens_from(s@, i as int),
            forall|k: int| 0 <= k < done.len() ==> usize_token_ok(#[trigger] done[k]),
            forall|k: int| 0 <= k < done.len() ==> out@[k] as int == token_val(
                #[trigger] done[k],
            ),
        decreases s.len() - i,
    {
        if ws_byte(s[i]) {
            i += 1;
        } else {
            let j = scan_token_end(s, i);
            proof {
                lemma_tok_end(s@, i as int);
                assert(tokens_from(s@, i as int) =~= seq![
                    s@.subrange(i as int, j as int),
                ] + tokens_from(s@, j as int));
                assert(tokens(s@)[done.len() as int] == s@.subrange(i as int, j as int));
            }
            match parse_usize_token(s, i, j) {
                Some(v) => {
                    out.push(v);
                    proof {
                        done = done.push(s@.subrange(i as int, j as int));
                    }
                },
                None => {
                    assert(!usize_token_ok(tokens(s@)[done.len() as int]));
                    return None;
                },
            }
            i = j;
        }
    }
    proof {
        assert(tokens(s@) =~= done);
        assert(out@ =~= usize_vals(s@));
    }
    Some(out)
}

/// `s` with leading whitespace removed.
pub open spec fn ltrim(s: Seq<u8>) -> Seq<u8>
    decreases s.len(),
{
    if s.len() > 0 && is_ws(s.first()) {
        ltrim(s.drop_first())
    } else {
        s
    }
}

/// `s` with trailing whitespace removed.
pub open spec fn rtrim(s: Seq<u8>) -> Seq<u8>
    decreases s.len(),
{
    if s.len() > 0 && is_ws(s.last()) {
        rtrim(s.drop_last())
    } else {
        s
    }
}

/// `s` with surrounding whitespace removed.
pub open spec fn trim(s: Seq<u8>) -> Seq<u8> {
    rtrim(ltrim(s))
}

proof fn lemma_ltrim_skip(s: Seq<u8>, i: int)
    requires
        0 <= i <= s.len(),
        forall|k: int| 0 <= k < i ==> is_ws(#[trigger] s[k]),
        i == s.len() || !is_ws(s[i]),
    ensures
        ltrim(s) =~= s.skip(i),
    decreases i,
{
    if i > 0 {
        assert(s.drop_first() =~= s.skip(1));
        lemma_ltrim_skip(s.drop_first(), i - 1);
        assert(s.drop_first().skip(i - 1) =~= s.skip(i));
    }
}

proof fn lemma_rtrim_take(s: Seq<u8>, j: int)
    requires
        0 <= j <= s.len(),
        forall|k: int| j <= k < s.len() ==> is_ws(#[trigger] s[k]),
        j == 0 || !is_ws(s[j - 1]),
    ensures
        rtrim(s) =~= s.take(j),
    decreases s.len() - j,
{
    if j < s.len() {
        assert(s.drop_last() =~= s.take(s.len() - 1));
        lemma_rtrim_take(s.drop_last(), j);
    }
}

/// Parses a whole buffer, surrounding whitespace ignored, as one `isize` value.
#[verifier::loop_isolation(false)]
pub fn parse_trimmed_isize(s: &[u8]) -> (r: Option<isize>)
    ensures
        (r is Some <==> isize_token_ok(trim(s@))),
        (r matches Some(v) ==> v as int == token_val(trim(s@))),
{
    let mut i: usize = 0;
    while i < s.len() && ws_byte(s[i])
        invariant
            0 <= i <= s.len(),
            forall|k: int| 0 <= k < i ==> is_ws(#[trigger] s@[k]),
        decreases s.len() - i,
    {
        i += 1;
    }
    let mut j = s.len();
    while j > i && ws_byte(s[j - 1])
        invariant
            i <= j <= s.len(),
            forall|k: int| j <= k < s.len() ==> is_ws(#[trigger] s@[k]),
        decreases j,
    {
        j -= 1;
    }
    proof {
        lemma_ltrim_skip(s@, i as int);
        if j == i {
            lemma_rtrim_take(s@.skip(i as int), 0);
        } else {
            lemma_rtrim_take(s@.skip(i as int), j - i);
        }
        assert(trim(s@) =~= s@.subrange(i as int, j as int));
    }
    parse_isize_token(s, i, j)
}

pub open spec fn is_digit_c(c: char) -> bool {
    48 <= c as u32 <= 57
}

pub open spec fn all_digits_c(t: Seq<char>) -> bool {
    forall|k: int| 0 <= k < t.len() ==> is_digit_c(#[trigger] t[k])
}

/// The number the digit characters of `t` denote, read in base ten.
pub open spec fn dec_val_c(t: Seq<char>) -> int
    decreases t.len(),
{
    if t.len() == 0 {
        0
    } else {
        10 * dec_val_c(t.drop_last()) + (t.last() as u32 - 48)
    }
}

pub open spec fn has_sign_c(t: Seq<char>) -> bool {
    t.len() > 0 && (t[0] == '+' || t[0] == '-')
}

pub open spec fn is_neg_c(t: Seq<char>) -> bool {
    t.len() > 0 && t[0] == '-'
}

pub open spec fn num_body_c(t: Seq<char>) -> Seq<char> {
    if has_sign_c(t) {
        t.skip(1)
    } else {
        t
    }
}

/// An optional `+` or `-` sign followed by at least one decimal digit.
pub open spec fn valid_num_token_c(t: Seq<char>) -> bool {
    num_body_c(t).len() > 0 && all_digits_c(num_body_c(t))
}

/// The signed value a valid character number token denotes.
pub open spec fn token_val_c(t: Seq<char>) -> int {
    if is_neg_c(t) {
        -dec_val_c(num_body_c(t))
    } else {
        dec_val_c(num_body_c(t))
    }
}

/// A number token valid for `i32`: well-formed and within the type's range.
pub open spec fn i32_token_ok_c(t: Seq<char>) -> bool {
    valid_num_token_c(t) && i32::MIN <= token_val_c(t) <= i32::MAX
}

pub proof fn lemma_dec_val_c_nonneg(t: Seq<char>)
    requires
        all_digits_c(t),
    ensures
        dec_val_c(t) >= 0,
    decreases t.len(),
{
    if t.len() > 0 {
        lemma_dec_val_c_nonneg(t.drop_last());
    }
}

/// Reading more digit characters can only grow the denoted value.
pub proof fn lemma_dec_val_c_take_mono(t: Seq<char>, j: int)
    requires
        all_digits_c(t),
        0 <= j <= t.len(),
    ensures
        0 <= dec_val_c(t.take(j)) <= dec_val_c(t),
    decreases t.len(),
{
    lemma_dec_val_c_nonneg(t.take(j));
    if j == t.len() {
        assert(t.take(j) =~= t);
    } else {
        assert(t.drop_last().take(j) =~= t.take(j));
        lemma_dec_val_c_take_mono(t.drop_last(), j);
        lemma_dec_val_c_nonneg(t.drop_last());
    }
}

/// Position after the last `/` of `p`; 0 when `p` holds none.
pub open spec fn name_start(p: Seq<char>) -> int
    decreases p.len(),
{
    if p.len() == 0 {
        0
    } else if p.last() == '/' {
        p.len() as int
    } else {
        name_start(p.drop_last())
    }
}

/// Finds where the final path component of `s` begins.
#[verifier::loop_isolation(false)]
pub fn find_name_start(s: &str) -> (r: usize)
    ensures
        r as int == name_start(s@),
        r <= s@.len(),
{
    let len = s.unicode_len();
    let mut i = len;
    proof {
        assert(s@.take(len as int) =~= s@);
    }
    while i > 0
        invariant
            0 <= i <= s@.len(),
            name_start(s@) == name_start(s@.take(i as int)),
        decreases i,
    {
        let c = s.get_char(i - 1);
        if c == '/' {
            proof {
                assert(s@.take(i as int).last() == s@[i - 1]);
            }
            return i;
        }
        proof {
            assert(s@.take(i as int).drop_last() =~= s@.take(i - 1));
        }
        i -= 1;
    }
    0
}

/// Parses the characters of `s` from `start` on as an `i32`.
#[verifier::loop_isolation(false)]
pub fn parse_i32_suffix(s: &str, start: usize) -> (r: Option<i32>)
    requires
        start <= s@.len(),
    ensures
        (r is Some <==> i32_token_ok_c(s@.skip(start as int))),
        (r matches Some(v) ==> v as int == token_val_c(s@.skip(start as int))),
{
    let ghost t = s@.skip(start as int);
    let len = s.unicode_len();
    if start == len {
        return None;
    }
    let c0 = s.get_char(start);
    let neg = c0 == '-';
    let dstart = if c0 == '+' || c0 == '-' {
        start + 1
    } else {
        start
    };
    proof {
        assert(num_body_c(t) =~= s@.subrange(dstart as int, len as int));
    }
    if dstart == len {
        return None;
    }
    let ghost body = s@.subrange(dstart as int, len as int);
    let mut mag: u64 = 0;
    let mut k = dstart;
    while k < len
        invariant
            dstart <= k <= len <= s@.len(),
            all_digits_c(body.take(k - dstart)),
            mag == dec_val_c(body.take(k - dstart)),
            mag <= u32::MAX,
        decreases len - k,
    {
        let c = s.get_char(k);
        let u = c as u32;
        if u < 48 || u > 57 {
            assert(!is_digit_c(body[k - dstart]));
            return None;
        }
        proof {
            assert(body.take(k - dstart + 1).drop_last() =~= body.take(k - dstart));
        }
        mag = mag * 10 + (u - 48) as u64;
        if mag > u32::MAX as u64 {
            proof {
                if all_digits_c(body) {
                    lemma_dec_val_c_take_mono(body, k - dstart + 1);
                }
            }
            return None;
        }
        k += 1;
    }
    proof {
        assert(body.take(len - dstart) =~= body);
    }
    if neg {
        if mag <= i32::MAX as u64 {
            Some(-(mag as i32))
        } else if mag == i32::MAX as u64 + 1 {
            Some(i32::MIN)
        } else {
            None
        }
    } else {
        if mag <= i32::MAX as u64 {
            Some(mag as i32)
        } else {
            None
        }
    }
}

} // verus!
