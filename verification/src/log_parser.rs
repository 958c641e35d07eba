//! The line parser: splits one raw line on runs of whitespace and extracts
//! the record fields by fixed token position. A line with fewer than six
//! tokens is rejected; a numeric field that does not parse as a non-negative
//! integer in range is leniently coerced to `0` instead of rejecting the
//! line.

use vstd::prelude::*;

use crate::log_entry::LogEntry;

verus! {

/// A line that cannot yield a record. The only such failure is a shortage
/// of whitespace-delimited tokens; malformed numeric fields never reject a
/// line.
#[derive(Debug, PartialEq, Eq, Structural)]
pub enum ParseError {
    MissingFields,
}

/// Whether `c` has the Unicode `White_Space` property, the separator that
/// splitting on whitespace goes by.
pub open spec fn is_wspace(c: char) -> bool {
    let u = c as u32;
    (9 <= u && u <= 13) || u == 32 || u == 0x85 || u == 0xA0 || u == 0x1680 || (0x2000 <= u && u
        <= 0x200A) || u == 0x2028 || u == 0x2029 || u == 0x202F || u == 0x205F || u == 0x3000
}

fn is_wspace_char(c: char) -> (b: bool)
    ensures
        b == is_wspace(c),
{
    let u = c as u32;
    (9 <= u && u <= 13) || u == 32 || u == 0x85 || u == 0xA0 || u == 0x1680 || (0x2000 <= u && u
        <= 0x200A) || u == 0x2028 || u == 0x2029 || u == 0x202F || u == 0x205F || u == 0x3000
}

/// The length of the run of non-whitespace characters that `s` starts with.
pub open spec fn token_len(s: Seq<char>) -> nat
    decreases s.len(),
{
    if s.len() == 0 || is_wspace(s[0]) {
        0
    } else {
        1 + token_len(s.drop_first())
    }
}

pub proof fn lemma_token_len_le(s: Seq<char>)
    ensures
        token_len(s) <= s.len(),
    decreases s.len(),
{
    if s.len() == 0 || is_wspace(s[0]) {
    } else {
        lemma_token_len_le(s.drop_first());
    }
}

/// `token_len` is the position of the first whitespace character: it is the
/// `k` below which no character is whitespace and at which the string ends
/// or a whitespace character stands.
pub proof fn lemma_token_len_is_boundary(s: Seq<char>, k: int)
    requires
        0 <= k <= s.len(),
        forall|m: int| 0 <= m < k ==> !is_wspace(s[m]),
        k == s.len() || is_wspace(s[k]),
    ensures
        token_len(s) == k,
    decreases s.len(),
{
    if k == 0 {
    } else {
        assert(!is_wspace(s[0]));
        lemma_token_len_is_boundary(s.drop_first(), k - 1);
    }
}

/// The whitespace-delimited tokens of `s`, in order: leading whitespace is
/// skipped, and each token is a maximal run of non-whitespace characters.
pub open spec fn tokens_of(s: Seq<char>) -> Seq<Seq<char>>
    decreases s.len(),
{
    if s.len() == 0 {
        Seq::empty()
    } else if is_wspace(s[0]) {
        tokens_of(s.drop_first())
    } else {
        {
            proof {
                lemma_token_len_le(s);
            }
            seq![s.take(token_len(s) as int)] + tokens_of(s.skip(token_len(s) as int))
        }
    }
}

/// The views of a sequence of owned strings.
pub open spec fn views_of(ts: Seq<String>) -> Seq<Seq<char>> {
    ts.map_values(|t: String| t@)
}

/// Splits a line on runs of whitespace into its owned tokens, exactly the
/// tokens that `tokens_of` names.
pub fn split_whitespace_tokens(line: &str) -> (toks: Vec<String>)
    ensures
        views_of(toks@) == tokens_of(line@),
{
    let n = line.unicode_len();
    let mut toks: Vec<String> = Vec::new();
    let mut i: usize = 0;
    proof {
        assert(line@.skip(0) =~= line@);
        assert(views_of(toks@) =~= Seq::<Seq<char>>::empty());
        assert(views_of(toks@) + tokens_of(line@) =~= tokens_of(line@));
    }
    while i < n
        invariant
            i <= n,
            n == line@.len(),
            tokens_of(line@) == views_of(toks@) + tokens_of(line@.skip(i as int)),
        decreases n - i,
    {
        let c = line.get_char(i);
        if is_wspace_char(c) {
            proof {
                assert(line@.skip(i as int).drop_first() =~= line@.skip(i as int + 1));
            }
            i += 1;
        } else {
            let start = i;
            let mut j = i + 1;
            while j < n && !is_wspace_char(line.get_char(j))
                invariant
                    start < j <= n,
                    n == line@.len(),
                    forall|m: int| start <= m < j ==> !is_wspace(line@[m]),
                decreases n - j,
            {
                j += 1;
            }
            let tok = line.substring_char(start, j).to_owned();
            let ghost old_toks = toks@;
            toks.push(tok);
            proof {
                let rest = line@.skip(start as int);
                lemma_token_len_is_boundary(rest, j - start);
                assert(rest.take(j - start) =~= line@.subrange(start as int, j as int));
                assert(rest.skip(j - start) =~= line@.skip(j as int));
                assert(tokens_of(rest) == seq![line@.subrange(start as int, j as int)]
                    + tokens_of(line@.skip(j as int)));
                assert(views_of(toks@) =~= views_of(old_toks).push(
                    line@.subrange(start as int, j as int),
                ));
                assert(views_of(toks@) + tokens_of(line@.skip(j as int)) =~= views_of(old_toks)
                    + tokens_of(rest));
            }
            i = j;
        }
    }
    proof {
        assert(line@.skip(n as int) =~= Seq::<char>::empty());
        assert(views_of(toks@) + tokens_of(line@.skip(n as int)) =~= views_of(toks@));
    }
    toks
}

/// Whether `c` is an ASCII decimal digit.
pub open spec fn is_dec_digit(c: char) -> bool {
    48 <= c as u32 && c as u32 <= 57
}

/// The value of the ASCII decimal digit `c`.
pub open spec fn digit_val(c: char) -> int {
    c as u32 - 48
}

pub open spec fn all_dec_digits(s: Seq<char>) -> bool {
    forall|m: int| 0 <= m < s.len() ==> is_dec_digit(#[trigger] s[m])
}

/// The number that the digit string `s` writes in base ten.
pub open spec fn dec_digits_value(s: Seq<char>) -> int
    decreases s.len(),
{
    if s.len() == 0 {
        0
    } else {
        dec_digits_value(s.drop_last()) * 10 + digit_val(s.last())
    }
}

/// The token with an optional leading `+` sign removed.
pub open spec fn unsigned_body(s: Seq<char>) -> Seq<char> {
    if s.len() > 0 && s[0] == '+' {
        s.drop_first()
    } else {
        s
    }
}

/// The number a token denotes under the lenient policy: the value of an
/// optionally `+`-signed, all-digit token whose value is at most `max`, and
/// `0` for every other token.
pub open spec fn numeric_token_value(s: Seq<char>, max: int) -> int {
    let b = unsigned_body(s);
    if b.len() > 0 && all_dec_digits(b) && dec_digits_value(b) <= max {
        dec_digits_value(b)
    } else {
        0
    }
}

pub proof fn lemma_dec_digits_value_nonneg(s: Seq<char>)
    requires
        all_dec_digits(s),
    ensures
        dec_digits_value(s) >= 0,
    decreases s.len(),
{
    if s.len() == 0 {
    } else {
        assert(all_dec_digits(s.drop_last()));
        lemma_dec_digits_value_nonneg(s.drop_last());
    }
}

/// Reading further digits can only grow the value: the value of a prefix of
/// an all-digit string is at most the value of the whole.
pub proof fn lemma_dec_digits_value_prefix_le(s: Seq<char>, k: int)
    requires
        all_dec_digits(s),
        0 <= k <= s.len(),
    ensures
        dec_digits_value(s.take(k)) <= dec_digits_value(s),
    decreases s.len() - k,
{
    if k == s.len() {
        assert(s.take(k) =~= s);
    } else {
        assert(s.take(k + 1).drop_last() =~= s.take(k));
        assert(s.take(k + 1).last() == s[k]);
        assert(all_dec_digits(s.take(k)));
        lemma_dec_digits_value_nonneg(s.take(k));
        assert(dec_digits_value(s.take(k + 1)) == dec_digits_value(s.take(k)) * 10 + digit_val(
            s[k],
        ));
        lemma_dec_digits_value_prefix_le(s, k + 1);
    }
}

/// Parses a token as a non-negative decimal integer of at most `max`,
/// returning `0` for any token that is not such a number: the lenient
/// numeric field policy.
pub fn parse_uint_or_zero(tok: &str, max: u64) -> (v: u64)
    requires
        max <= u32::MAX as u64,
    ensures
        v as int == numeric_token_value(tok@, max as int),
{
    let n = tok.unicode_len();
    let mut start: usize = 0;
    if n > 0 && tok.get_char(0) == '+' {
        start = 1;
    }
    let ghost b = unsigned_body(tok@);
    proof {
        assert(b =~= tok@.skip(start as int));
    }
    if start == n {
        return 0;
    }
    let mut acc: u64 = 0;
    let mut k = start;
    while k < n
        invariant
            start <= k <= n,
            n == tok@.len(),
            start < n,
            max <= u32::MAX as u64,
            b == unsigned_body(tok@),
            b == tok@.skip(start as int),
            all_dec_digits(b.take(k - start)),
            acc as int == dec_digits_value(b.take(k - start)),
            acc <= max,
        decreases n - k,
    {
        let c = tok.get_char(k);
        let u = c as u32;
        if !(48 <= u && u <= 57) {
            proof {
                assert(b[k - start] == tok@[k as int]);
                assert(!all_dec_digits(b));
            }
            return 0;
        }
        let d = (u - 48) as u64;
        let next_acc = acc * 10 + d;
        proof {
            assert(b.take(k - start + 1).drop_last() =~= b.take(k - start));
            assert(b.take(k - start + 1).last() == tok@[k as int]);
            assert(next_acc as int == dec_digits_value(b.take(k - start + 1)));
        }
        if next_acc > max {
            proof {
                if all_dec_digits(b) {
                    lemma_dec_digits_value_prefix_le(b, k - start + 1);
                }
            }
            return 0;
        }
        acc = next_acc;
        k += 1;
    }
    proof {
        assert(b.take(n - start) =~= b);
        assert(b.len() > 0);
    }
    acc
}

/// Whether a line yields a record: it does exactly when it has at least six
/// whitespace-delimited tokens.
pub open spec fn line_parses(line: Seq<char>) -> bool {
    tokens_of(line).len() >= 6
}

/// Parses one raw log line into a record, or fails with `MissingFields`.
///
/// A line with at least six whitespace-delimited tokens always parses:
/// token 2 becomes the request type and token 3 the endpoint, exactly as
/// they stand; tokens 0 and 1 and any tokens after the sixth are ignored.
/// Tokens 4 and 5 become the status code and the response time, with any
/// token that is not an in-range non-negative decimal number coerced to `0`.
/// A line with fewer than six tokens fails with `MissingFields` and yields
/// no record.
pub fn parse_log_line(line: &str) -> (r: Result<LogEntry, ParseError>)
    ensures
        r is Ok <==> line_parses(line@),
        r matches Err(e) ==> e == ParseError::MissingFields,
        r matches Ok(rec) ==> {
            let toks = tokens_of(line@);
            rec.request_type@ == toks[2] && rec.endpoint_url@ == toks[3] && rec.status_code as int
                == numeric_token_value(toks[4], u16::MAX as int) && rec.response_time_ms as int
                == numeric_token_value(toks[5], u32::MAX as int)
        },
{
    let toks = split_whitespace_tokens(line);
    if toks.len() < 6 {
        return Err(ParseError::MissingFields);
    }
    let status = parse_uint_or_zero(toks[4].as_str(), 65535);
    let time = parse_uint_or_zero(toks[5].as_str(), 4294967295);
    Ok(
        LogEntry {
            request_type: toks[2].clone(),
            endpoint_url: toks[3].clone(),
            status_code: status as u16,
            response_time_ms: time as u32,
        },
    )
}

} // verus!
