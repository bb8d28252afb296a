use vstd::prelude::*;
use vstd::string::StringSliceAdditionalSpecFns;
use vstd::slice::{slice_subrange, slice_to_vec};
use crate::error::Error;
use crate::protocol::{Request, SpecRequest};

verus! {

// The client's textual command line: whitespace-separated tokens, the first
// naming the request, the rest its arguments. Tokens are separated by ASCII
// whitespace, and the command word is matched without regard to ASCII case.

/// ASCII whitespace: space, tab, line feed, form feed, carriage return.
pub open spec fn is_ws(b: u8) -> bool {
    b == 32 || b == 9 || b == 10 || b == 12 || b == 13
}

/// The length of the word at the front of `s`: the count of bytes before the
/// first whitespace.
pub open spec fn spec_word_len(s: Seq<u8>) -> nat
    decreases s.len(),
{
    if s.len() == 0 || is_ws(s[0]) {
        0
    } else {
        1 + spec_word_len(s.drop_first())
    }
}

proof fn lemma_word_len_le(s: Seq<u8>)
    ensures
        spec_word_len(s) <= s.len(),
    decreases s.len(),
{
    if s.len() > 0 && !is_ws(s[0]) {
        lemma_word_len_le(s.drop_first());
    }
}

/// The whitespace-separated tokens of `s`, in order.
pub open spec fn spec_tokens(s: Seq<u8>) -> Seq<Seq<u8>>
    decreases s.len(),
    via spec_tokens_decreases
{
    if s.len() == 0 {
        Seq::empty()
    } else if is_ws(s[0]) {
        spec_tokens(s.drop_first())
    } else {
        let w = spec_word_len(s) as int;
        seq![s.subrange(0, w)] + spec_tokens(s.subrange(w, s.len() as int))
    }
}

#[via_fn]
proof fn spec_tokens_decreases(s: Seq<u8>) {
    if s.len() > 0 && !is_ws(s[0]) {
        lemma_word_len_le(s);
    }
}

/// The byte, ASCII-uppercased.
pub open spec fn spec_upper(b: u8) -> u8 {
    if 97 <= b && b <= 122 {
        (b - 32) as u8
    } else {
        b
    }
}

/// The word, ASCII-uppercased byte for byte.
pub open spec fn spec_upper_seq(s: Seq<u8>) -> Seq<u8> {
    s.map_values(|b: u8| spec_upper(b))
}

/// The request tag an uppercased command word names: each request has a full
/// word and a short form, as in "PING"/"P", "PUBLISH"/"PUB", "UNSUBSCRIBE"/
/// "UNSUB". An unknown word names nothing. The byte values spell the words
/// in ASCII.
pub open spec fn spec_keyword_code(w: Seq<u8>) -> Option<u8> {
    if w.len() == 1 {
        if w[0] == 80 {
            Some(Request::PING)
        } else if w[0] == 71 {
            Some(Request::GET)
        } else if w[0] == 83 {
            Some(Request::SET)
        } else if w[0] == 68 {
            Some(Request::DELETE)
        } else {
            None
        }
    } else if w.len() == 3 {
        if w[0] == 71 && w[1] == 69 && w[2] == 84 {
            Some(Request::GET)
        } else if w[0] == 83 && w[1] == 69 && w[2] == 84 {
            Some(Request::SET)
        } else if w[0] == 80 && w[1] == 85 && w[2] == 66 {
            Some(Request::PUBLISH)
        } else if w[0] == 83 && w[1] == 85 && w[2] == 66 {
            Some(Request::SUBSCRIBE)
        } else {
            None
        }
    } else if w.len() == 4 {
        if w[0] == 80 && w[1] == 73 && w[2] == 78 && w[3] == 71 {
            Some(Request::PING)
        } else {
            None
        }
    } else if w.len() == 5 {
        if w[0] == 85 && w[1] == 78 && w[2] == 83 && w[3] == 85 && w[4] == 66 {
            Some(Request::UNSUBSCRIBE)
        } else {
            None
        }
    } else if w.len() == 6 {
        if w[0] == 68 && w[1] == 69 && w[2] == 76 && w[3] == 69 && w[4] == 84 && w[5] == 69 {
            Some(Request::DELETE)
        } else {
            None
        }
    } else if w.len() == 7 {
        if w[0] == 80 && w[1] == 85 && w[2] == 66 && w[3] == 76 && w[4] == 73 && w[5] == 83
            && w[6] == 72 {
            Some(Request::PUBLISH)
        } else {
            None
        }
    } else if w.len() == 9 {
        if w[0] == 83 && w[1] == 85 && w[2] == 66 && w[3] == 83 && w[4] == 67 && w[5] == 82
            && w[6] == 73 && w[7] == 66 && w[8] == 69 {
            Some(Request::SUBSCRIBE)
        } else {
            None
        }
    } else if w.len() == 11 {
        if w[0] == 85 && w[1] == 78 && w[2] == 83 && w[3] == 85 && w[4] == 66 && w[5] == 83
            && w[6] == 67 && w[7] == 82 && w[8] == 73 && w[9] == 66 && w[10] == 69 {
            Some(Request::UNSUBSCRIBE)
        } else {
            None
        }
    } else {
        None
    }
}

/// Whether every byte is an ASCII decimal digit.
pub open spec fn all_digits(s: Seq<u8>) -> bool {
    forall|i: int| 0 <= i < s.len() ==> 48 <= #[trigger] s[i] <= 57
}

/// The number the digit bytes spell in decimal.
pub open spec fn spec_digits_value(s: Seq<u8>) -> int
    decreases s.len(),
{
    if s.len() == 0 {
        0
    } else {
        spec_digits_value(s.drop_last()) * 10 + (s.last() - 48)
    }
}

/// The digit bytes of a number word: what follows an optional leading plus
/// sign.
pub open spec fn spec_digits_of(s: Seq<u8>) -> Seq<u8> {
    if s.len() > 0 && s[0] == 43 {
        s.drop_first()
    } else {
        s
    }
}

/// The unsigned 32-bit number a word spells, as Rust's integer parsing reads
/// it: an optional leading plus sign, then at least one decimal digit, the
/// value within range.
pub open spec fn spec_parse_u32(s: Seq<u8>) -> Option<u32> {
    let digits = spec_digits_of(s);
    if digits.len() == 0 || !all_digits(digits) {
        None
    } else if spec_digits_value(digits) > u32::MAX {
        None
    } else {
        Some(spec_digits_value(digits) as u32)
    }
}

/// The request a command line spells, or nothing when it is malformed: a
/// missing or unknown command word, a missing argument, or a channel id that
/// is not a number. Arguments beyond those the command takes are ignored.
pub open spec fn spec_parse_command(s: Seq<u8>) -> Option<SpecRequest> {
    let ts = spec_tokens(s);
    if ts.len() == 0 {
        None
    } else {
        match spec_keyword_code(spec_upper_seq(ts[0])) {
            Some(k) => if k == Request::PING {
                Some(SpecRequest::Ping)
            } else if k == Request::GET {
                if ts.len() >= 2 {
                    Some(SpecRequest::Get(ts[1]))
                } else {
                    None
                }
            } else if k == Request::SET {
                if ts.len() >= 3 {
                    Some(SpecRequest::Put(ts[1], ts[2]))
                } else {
                    None
                }
            } else if k == Request::DELETE {
                if ts.len() >= 2 {
                    Some(SpecRequest::Delete(ts[1]))
                } else {
                    None
                }
            } else if k == Request::PUBLISH {
                if ts.len() < 2 {
                    None
                } else {
                    match spec_parse_u32(ts[1]) {
                        Some(id) => if ts.len() >= 3 {
                            Some(SpecRequest::Publish(id, ts[2]))
                        } else {
                            None
                        },
                        None => None,
                    }
                }
            } else if k == Request::SUBSCRIBE {
                if ts.len() < 2 {
                    None
                } else {
                    match spec_parse_u32(ts[1]) {
                        Some(id) => Some(SpecRequest::Subscribe(id)),
                        None => None,
                    }
                }
            } else {
                Some(SpecRequest::Unsubscribe)
            },
            None => None,
        }
    }
}

// ---------------------------------------------------------------------------
// Executable parsing
// ---------------------------------------------------------------------------

fn is_whitespace(b: u8) -> (r: bool)
    ensures
        r == is_ws(b),
{
    b == 32 || b == 9 || b == 10 || b == 12 || b == 13
}

/// The token views of a token vector.
pub open spec fn spec_token_views(ts: Seq<Vec<u8>>) -> Seq<Seq<u8>> {
    ts.map_values(|t: Vec<u8>| t@)
}

proof fn lemma_word_len_is(s: Seq<u8>, m: int)
    requires
        0 <= m <= s.len(),
        forall|k: int| 0 <= k < m ==> !is_ws(#[trigger] s[k]),
        m < s.len() ==> is_ws(s[m]),
    ensures
        spec_word_len(s) == m,
    decreases m,
{
    if m == 0 {
    } else {
        let t = s.drop_first();
        assert(forall|k: int| 0 <= k < m - 1 ==> #[trigger] t[k] == s[k + 1]);
        lemma_word_len_is(t, m - 1);
    }
}

/// Splits a line into its whitespace-separated tokens.
fn tokenize(line: &[u8]) -> (r: Vec<Vec<u8>>)
    ensures
        spec_token_views(r@) == spec_tokens(line@),
{
    let mut tokens: Vec<Vec<u8>> = Vec::new();
    let mut i: usize = 0;
    proof {
        assert(line@.subrange(0, line@.len() as int) =~= line@);
        assert(spec_token_views(tokens@) =~= Seq::<Seq<u8>>::empty());
        assert(spec_token_views(tokens@) + spec_tokens(line@) =~= spec_tokens(line@));
    }
    while i < line.len()
        invariant
            i <= line@.len(),
            spec_tokens(line@) == spec_token_views(tokens@) + spec_tokens(
                line@.subrange(i as int, line@.len() as int),
            ),
        decreases line@.len() - i,
    {
        if is_whitespace(line[i]) {
            proof {
                let rest = line@.subrange(i as int, line@.len() as int);
                assert(rest.drop_first() =~= line@.subrange(i as int + 1, line@.len() as int));
            }
            i = i + 1;
        } else {
            let start = i;
            let mut j = i + 1;
            while j < line.len() && !is_whitespace(line[j])
                invariant
                    start < j <= line@.len(),
                    start < line@.len(),
                    forall|k: int| start <= k < j ==> !is_ws(#[trigger] line@[k]),
                decreases line@.len() - j,
            {
                j = j + 1;
            }
            let ghost rest = line@.subrange(start as int, line@.len() as int);
            proof {
                assert(forall|k: int| 0 <= k < rest.len() ==> #[trigger] rest[k] == line@[
                    start + k
                ]);
                lemma_word_len_is(rest, j - start);
                assert(rest.subrange(0, j - start) =~= line@.subrange(start as int, j as int));
                assert(rest.subrange(j - start, rest.len() as int) =~= line@.subrange(
                    j as int,
                    line@.len() as int,
                ));
            }
            let word = slice_to_vec(slice_subrange(line, start, j));
            let ghost before = tokens@;
            tokens.push(word);
            proof {
                assert(spec_token_views(tokens@) =~= spec_token_views(before) + seq![word@]);
                assert(spec_tokens(rest) == seq![word@] + spec_tokens(
                    line@.subrange(j as int, line@.len() as int),
                ));
                assert(spec_token_views(tokens@) + spec_tokens(
                    line@.subrange(j as int, line@.len() as int),
                ) =~= spec_token_views(before) + spec_tokens(rest));
            }
            i = j;
        }
    }
    proof {
        assert(spec_tokens(line@.subrange(i as int, line@.len() as int)) =~= Seq::<Seq<u8>>::empty());
        assert(spec_token_views(tokens@) + Seq::<Seq<u8>>::empty() =~= spec_token_views(tokens@));
    }
    tokens
}

/// Uppercases a word, ASCII-wise.
fn to_upper(word: &[u8]) -> (r: Vec<u8>)
    ensures
        r@ == spec_upper_seq(word@),
{
    let mut out: Vec<u8> = Vec::new();
    let mut i: usize = 0;
    while i < word.len()
        invariant
            i <= word@.len(),
            out@ == spec_upper_seq(word@.subrange(0, i as int)),
        decreases word@.len() - i,
    {
        let b = word[i];
        if 97 <= b && b <= 122 {
            out.push(b - 32);
        } else {
            out.push(b);
        }
        i = i + 1;
        proof {
            assert(word@.subrange(0, i as int).drop_last() =~= word@.subrange(0, i - 1));
            assert(out@ =~= spec_upper_seq(word@.subrange(0, i as int)));
        }
    }
    proof {
        assert(word@.subrange(0, word@.len() as int) =~= word@);
    }
    out
}

/// The request tag the command word names, matched without regard to case.
fn keyword_code(w: &[u8]) -> (k: Option<u8>)
    ensures
        k == spec_keyword_code(w@),
{
    if w.len() == 1 {
        if w[0] == 80 {
            Some(Request::PING)
        } else if w[0] == 71 {
            Some(Request::GET)
        } else if w[0] == 83 {
            Some(Request::SET)
        } else if w[0] == 68 {
            Some(Request::DELETE)
        } else {
            None
        }
    } else if w.len() == 3 {
        if w[0] == 71 && w[1] == 69 && w[2] == 84 {
            Some(Request::GET)
        } else if w[0] == 83 && w[1] == 69 && w[2] == 84 {
            Some(Request::SET)
        } else if w[0] == 80 && w[1] == 85 && w[2] == 66 {
            Some(Request::PUBLISH)
        } else if w[0] == 83 && w[1] == 85 && w[2] == 66 {
            Some(Request::SUBSCRIBE)
        } else {
            None
        }
    } else if w.len() == 4 {
        if w[0] == 80 && w[1] == 73 && w[2] == 78 && w[3] == 71 {
            Some(Request::PING)
        } else {
            None
        }
    } else if w.len() == 5 {
        if w[0] == 85 && w[1] == 78 && w[2] == 83 && w[3] == 85 && w[4] == 66 {
            Some(Request::UNSUBSCRIBE)
        } else {
            None
        }
    } else if w.len() == 6 {
        if w[0] == 68 && w[1] == 69 && w[2] == 76 && w[3] == 69 && w[4] == 84 && w[5] == 69 {
            Some(Request::DELETE)
        } else {
            None
        }
    } else if w.len() == 7 {
        if w[0] == 80 && w[1] == 85 && w[2] == 66 && w[3] == 76 && w[4] == 73 && w[5] == 83
            && w[6] == 72 {
            Some(Request::PUBLISH)
        } else {
            None
        }
    } else if w.len() == 9 {
        if w[0] == 83 && w[1] == 85 && w[2] == 66 && w[3] == 83 && w[4] == 67 && w[5] == 82
            && w[6] == 73 && w[7] == 66 && w[8] == 69 {
            Some(Request::SUBSCRIBE)
        } else {
            None
        }
    } else if w.len() == 11 {
        if w[0] == 85 && w[1] == 78 && w[2] == 83 && w[3] == 85 && w[4] == 66 && w[5] == 83
            && w[6] == 67 && w[7] == 82 && w[8] == 73 && w[9] == 66 && w[10] == 69 {
            Some(Request::UNSUBSCRIBE)
        } else {
            None
        }
    } else {
        None
    }
}

proof fn lemma_digits_value_nonneg(s: Seq<u8>)
    requires
        all_digits(s),
    ensures
        spec_digits_value(s) >= 0,
    decreases s.len(),
{
    if s.len() > 0 {
        assert(all_digits(s.drop_last()));
        lemma_digits_value_nonneg(s.drop_last());
    }
}

proof fn lemma_digits_prefix_le(s: Seq<u8>, k: int)
    requires
        all_digits(s),
        0 <= k <= s.len(),
    ensures
        spec_digits_value(s.take(k)) <= spec_digits_value(s),
    decreases s.len() - k,
{
    if k < s.len() {
        assert(all_digits(s.take(k)));
        assert(s.take(k + 1).drop_last() =~= s.take(k));
        assert(s.take(k + 1).last() == s[k]);
        lemma_digits_value_nonneg(s.take(k));
        lemma_digits_prefix_le(s, k + 1);
    } else {
        assert(s.take(k) =~= s);
    }
}

/// Reads a word as an unsigned 32-bit decimal number.
fn parse_u32(word: &[u8]) -> (r: Option<u32>)
    ensures
        r == spec_parse_u32(word@),
{
    let start: usize = if word.len() > 0 && word[0] == 43 {
        1
    } else {
        0
    };
    let ghost digits = spec_digits_of(word@);
    proof {
        assert(digits =~= word@.subrange(start as int, word@.len() as int));
    }
    if word.len() == start {
        return None;
    }
    let mut acc: u64 = 0;
    let mut i = start;
    while i < word.len()
        invariant
            start <= i <= word@.len(),
            digits == spec_digits_of(word@),
            digits =~= word@.subrange(start as int, word@.len() as int),
            acc <= u32::MAX,
            forall|k: int| start <= k < i ==> 48 <= #[trigger] word@[k] <= 57,
            acc == spec_digits_value(word@.subrange(start as int, i as int)),
        decreases word@.len() - i,
    {
        let b = word[i];
        if b < 48 || b > 57 {
            proof {
                assert(digits[i - start] == word@[i as int]);
                assert(!all_digits(digits));
            }
            return None;
        }
        acc = acc * 10 + (b - 48) as u64;
        i = i + 1;
        proof {
            assert(word@.subrange(start as int, i as int).drop_last() =~= word@.subrange(
                start as int,
                i - 1,
            ));
            assert(word@.subrange(start as int, i as int).last() == word@[i - 1]);
        }
        if acc > u32::MAX as u64 {
            proof {
                if all_digits(digits) {
                    assert(digits.take(i - start) =~= word@.subrange(start as int, i as int));
                    lemma_digits_prefix_le(digits, i - start);
                }
            }
            return None;
        }
    }
    proof {
        assert(digits =~= word@.subrange(start as int, word@.len() as int));
        assert(all_digits(digits));
    }
    Some(acc as u32)
}

impl Request {
    /// Parses one textual command line into a request, or reports that it is
    /// malformed. Tokens are separated by ASCII whitespace and the command
    /// word is matched without regard to ASCII case.
    pub fn try_from(line: &str) -> (r: Result<Request, Error>)
        ensures
            match r {
                Ok(request) => spec_parse_command(line.spec_bytes()) == Some(request@),
                Err(e) => spec_parse_command(line.spec_bytes()) == None::<SpecRequest> && e
                    == Error::Parse,
            },
    {
        let bytes = line.as_bytes();
        let tokens = tokenize(bytes);
        if tokens.len() == 0 {
            return Err(Error::Parse);
        }
        proof {
            assert(spec_token_views(tokens@)[0] == tokens@[0]@);
        }
        let upper = to_upper(tokens[0].as_slice());
        match keyword_code(upper.as_slice()) {
            None => Err(Error::Parse),
            Some(k) => {
                if k == Request::PING {
                    Ok(Request::Ping)
                } else if k == Request::GET {
                    if tokens.len() < 2 {
                        Err(Error::Parse)
                    } else {
                        proof {
                            assert(spec_token_views(tokens@)[1] == tokens@[1]@);
                        }
                        Ok(Request::Get(slice_to_vec(tokens[1].as_slice())))
                    }
                } else if k == Request::SET {
                    if tokens.len() < 3 {
                        Err(Error::Parse)
                    } else {
                        proof {
                            assert(spec_token_views(tokens@)[1] == tokens@[1]@);
                            assert(spec_token_views(tokens@)[2] == tokens@[2]@);
                        }
                        Ok(Request::Put(
                            slice_to_vec(tokens[1].as_slice()),
                            slice_to_vec(tokens[2].as_slice()),
                        ))
                    }
                } else if k == Request::DELETE {
                    if tokens.len() < 2 {
                        Err(Error::Parse)
                    } else {
                        proof {
                            assert(spec_token_views(tokens@)[1] == tokens@[1]@);
                        }
                        Ok(Request::Delete(slice_to_vec(tokens[1].as_slice())))
                    }
                } else if k == Request::PUBLISH {
                    if tokens.len() < 2 {
                        Err(Error::Parse)
                    } else {
                        proof {
                            assert(spec_token_views(tokens@)[1] == tokens@[1]@);
                        }
                        match parse_u32(tokens[1].as_slice()) {
                            None => Err(Error::Parse),
                            Some(id) => {
                                if tokens.len() < 3 {
                                    Err(Error::Parse)
                                } else {
                                    proof {
                                        assert(spec_token_views(tokens@)[2] == tokens@[2]@);
                                    }
                                    Ok(Request::Publish(id, slice_to_vec(tokens[2].as_slice())))
                                }
                            }
                        }
                    }
                } else if k == Request::SUBSCRIBE {
                    if tokens.len() < 2 {
                        Err(Error::Parse)
                    } else {
                        proof {
                            assert(spec_token_views(tokens@)[1] == tokens@[1]@);
                        }
                        match parse_u32(tokens[1].as_slice()) {
                            None => Err(Error::Parse),
                            Some(id) => Ok(Request::Subscribe(id)),
                        }
                    }
                } else {
                    Ok(Request::Unsubscribe)
                }
            }
        }
    }
}

} // verus!
