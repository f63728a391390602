//! Group tokens: parsing one `"ID:COUNT"` token into a functional-group
//! record, and rendering a record back into a token.
//!
//! A token is well formed when it carries at least one `:` separator, its
//! first field reads as an unsigned byte (the catalog id), and the field
//! between the first and second separator reads as a real number (the
//! multiplicity). Parsing fails with [`GroupFormatError`], which names the
//! substance that owns the token.

use vstd::prelude::*;
use crate::numeric::{
    all_digits, dec_seq, is_real_text, is_u8_text, lemma_dec_seq, parse_u8_range, real_range,
    str_chars, strip_sign, to_decimal, uint_text_val, is_count_text, is_mantissa, is_exp_suffix,
    is_number_text, is_special_text, is_exp_marker, ci_is,
};

verus! {

/// One functional group of a molecule: a catalog id and the textual
/// multiplicity with which the group occurs.
#[derive(Debug)]
pub struct FunctionalGroupSpec {
    /// Catalog id of the group.
    pub id: u8,
    /// Multiplicity of the group in one molecule, as a real token.
    pub count: String,
}

impl FunctionalGroupSpec {
    /// A record is well formed when its count is a real token.
    pub open spec fn wf(self) -> bool {
        is_real_text(self.count@)
    }
}

/// Failure to parse a group token; names the substance the token belongs to.
#[derive(Debug)]
pub struct GroupFormatError {
    /// Name of the substance whose group list held the malformed token.
    pub substance: String,
}

/// Index of the first `:` in `s`, or `s.len()` when there is none.
pub open spec fn first_colon(s: Seq<char>) -> int
    decreases s.len(),
{
    if s.len() == 0 {
        0
    } else if s[0] == ':' {
        0
    } else {
        1 + first_colon(s.skip(1))
    }
}

/// What `first_colon` returns: the position of the first separator.
pub proof fn lemma_first_colon(s: Seq<char>)
    ensures
        0 <= first_colon(s) <= s.len(),
        first_colon(s) < s.len() ==> s[first_colon(s)] == ':',
        forall|i: int| 0 <= i < first_colon(s) ==> s[i] != ':',
    decreases s.len(),
{
    if s.len() > 0 && s[0] != ':' {
        lemma_first_colon(s.skip(1));
        assert forall|i: int| 0 <= i < first_colon(s) implies s[i] != ':' by {
            if i > 0 {
                assert(s.skip(1)[i - 1] == s[i]);
            }
        }
        if first_colon(s) < s.len() {
            assert(s.skip(1)[first_colon(s) - 1] == s[first_colon(s)]);
        }
    }
}

/// The id field: everything before the first separator.
pub open spec fn id_field(s: Seq<char>) -> Seq<char> {
    s.take(first_colon(s))
}

/// The count field: everything between the first separator and the next
/// one, or the end of the token.
pub open spec fn count_field(s: Seq<char>) -> Seq<char> {
    let rest = s.skip(first_colon(s) + 1);
    rest.take(first_colon(rest))
}

/// A well-formed token: a separator is present, the id field is a byte
/// token, and the count field is a real token.
pub open spec fn token_ok(s: Seq<char>) -> bool {
    first_colon(s) < s.len() && is_u8_text(id_field(s)) && is_real_text(count_field(s))
}

/// The id a well-formed token carries.
pub open spec fn token_id(s: Seq<char>) -> nat {
    uint_text_val(id_field(s))
}

/// The count text a well-formed token carries.
pub open spec fn token_count(s: Seq<char>) -> Seq<char> {
    count_field(s)
}

/// The record parsed from token `t` for the owning substance `sub`.
pub open spec fn parse_result(
    r: Result<FunctionalGroupSpec, GroupFormatError>,
    t: Seq<char>,
    sub: Seq<char>,
) -> bool {
    &&& r is Ok <==> token_ok(t)
    &&& r is Ok ==> r.unwrap().id as nat == token_id(t) && r.unwrap().count@ == token_count(t)
        && r.unwrap().wf()
    &&& r is Err ==> r.unwrap_err().substance@ == sub
}

/// Scan for the first `:` in `[lo, hi)` of `v`.
fn find_colon(v: &Vec<char>, lo: usize, hi: usize) -> (p: usize)
    requires
        lo <= hi <= v@.len(),
    ensures
        lo <= p <= hi,
        p - lo == first_colon(v@.subrange(lo as int, hi as int)),
{
    let ghost s = v@.subrange(lo as int, hi as int);
    proof {
        lemma_first_colon(s);
    }
    let mut p = lo;
    while p < hi && v[p] != ':'
        invariant
            lo <= p <= hi <= v@.len(),
            s =~= v@.subrange(lo as int, hi as int),
            forall|i: int| 0 <= i < p - lo ==> s[i] != ':',
        decreases hi - p,
    {
        proof {
            assert(s[p - lo] == v@[p as int]);
        }
        p += 1;
    }
    proof {
        lemma_first_colon(s);
        if p < hi {
            assert(s[p - lo] == v@[p as int]);
            assert(s[p - lo] == ':');
            if first_colon(s) < p - lo {
                assert(s[first_colon(s)] == ':');
            }
            if first_colon(s) > p - lo {
                assert(s[p - lo] != ':');
            }
        } else {
            if first_colon(s) < s.len() {
                assert(s[first_colon(s)] == ':');
            }
        }
    }
    p
}

/// Parse one group token, for the substance named `substance`.
///
/// Succeeds exactly on well-formed tokens; any failure names the owning
/// substance.
pub fn parse_group_token(token: &str, substance: &str) -> (r: Result<
    FunctionalGroupSpec,
    GroupFormatError,
>)
    ensures
        parse_result(r, token@, substance@),
{
    let v = str_chars(token);
    let n = v.len();
    proof {
        assert(v@.subrange(0, n as int) =~= token@);
        lemma_first_colon(token@);
    }
    let c1 = find_colon(&v, 0, n);
    if c1 == n {
        return Err(GroupFormatError { substance: substance.to_owned() });
    }
    proof {
        assert(id_field(token@) =~= v@.subrange(0, c1 as int));
    }
    let id = match parse_u8_range(&v, 0, c1) {
        Some(id) => id,
        None => {
            return Err(GroupFormatError { substance: substance.to_owned() });
        },
    };
    let c2 = find_colon(&v, c1 + 1, n);
    proof {
        let rest = token@.skip(c1 + 1);
        assert(rest =~= v@.subrange(c1 + 1 as int, n as int));
        assert(count_field(token@) =~= rest.take(first_colon(rest)));
        assert(count_field(token@) =~= v@.subrange(c1 + 1 as int, c2 as int));
    }
    if !real_range(&v, c1 + 1, c2) {
        return Err(GroupFormatError { substance: substance.to_owned() });
    }
    let count = token.substring_char(c1 + 1, c2).to_owned();
    Ok(FunctionalGroupSpec { id, count })
}

/// The token a record renders to: the decimal id, a separator, the count.
pub open spec fn encoded_token(id: nat, count: Seq<char>) -> Seq<char> {
    dec_seq(id) + seq![':'] + count
}

/// Render a functional-group record back into a token.
pub fn encode_group_token(g: &FunctionalGroupSpec) -> (t: String)
    ensures
        t@ == encoded_token(g.id as nat, g.count@),
{
    let mut t = to_decimal(g.id as u128);
    proof {
        reveal_strlit(":");
        assert((":")@ =~= seq![':']);
    }
    t.append(":");
    t.append(g.count.as_str());
    proof {
        assert(t@ =~= encoded_token(g.id as nat, g.count@));
    }
    t
}

/// A real token never holds a separator.
pub proof fn lemma_real_no_colon(s: Seq<char>)
    requires
        is_real_text(s),
    ensures
        forall|i: int| 0 <= i < s.len() ==> s[i] != ':',
{
    let b = strip_sign(s);
    assert forall|i: int| 0 <= i < s.len() implies s[i] != ':' by {
        if i == 0 && s[0] == '+' || i == 0 && s[0] == '-' {
        } else {
            let j = if b == s {
                i
            } else {
                i - 1
            };
            assert(b[j] == s[i]);
            if is_special_text(b) {
                assert(b[j] != ':') by {
                    assert(ci_is(b[j], 'i') || ci_is(b[j], 'n') || ci_is(b[j], 'f') || ci_is(
                        b[j],
                        'a',
                    ) || ci_is(b[j], 't') || ci_is(b[j], 'y'));
                }
            } else {
                let k = choose|k: int|
                    0 <= k <= b.len() && is_mantissa(#[trigger] b.take(k)) && is_exp_suffix(
                        b.skip(k),
                    );
                if j < k {
                    assert(b.take(k)[j] == b[j]);
                    assert(crate::numeric::is_digit(b[j]) || b[j] == '.');
                } else if j == k {
                    assert(b.skip(k)[0] == b[j]);
                    assert(is_exp_marker(b[j]));
                } else {
                    let e = b.skip(k);
                    assert(e[j - k] == b[j]);
                    let body = strip_sign(e.skip(1));
                    if j - k == 1 && (e.skip(1)[0] == '+' || e.skip(1)[0] == '-') {
                        assert(b[j] != ':');
                    } else {
                        let m = if body == e.skip(1) {
                            j - k - 1
                        } else {
                            j - k - 2
                        };
                        assert(e.skip(1)[j - k - 1] == e[j - k]);
                        assert(body[m] == e.skip(1)[j - k - 1]);
                        assert(crate::numeric::is_digit(body[m]));
                    }
                }
            }
        }
    }
}

/// Rendering a well-formed record yields a well-formed token that parses
/// back to the same id and count.
pub proof fn lemma_token_round_trip(id: nat, count: Seq<char>)
    requires
        id <= 255,
        is_real_text(count),
    ensures
        token_ok(encoded_token(id, count)),
        token_id(encoded_token(id, count)) == id,
        token_count(encoded_token(id, count)) == count,
{
    let t = encoded_token(id, count);
    let d = dec_seq(id);
    lemma_dec_seq(id);
    lemma_first_colon(t);
    // the first separator stands right after the decimal id
    assert(t[d.len() as int] == ':');
    assert forall|i: int| 0 <= i < d.len() implies t[i] != ':' by {
        assert(t[i] == d[i]);
        assert(all_digits(d));
        assert(crate::numeric::is_digit(d[i]));
    }
    assert(first_colon(t) == d.len()) by {
        if first_colon(t) < d.len() {
            assert(t[first_colon(t)] == ':');
        }
        if first_colon(t) > d.len() {
            assert(t[d.len() as int] != ':');
        }
    }
    assert(id_field(t) =~= d);
    assert(is_u8_text(d)) by {
        assert(d[0] != '+');
        assert(is_count_text(d));
    }
    assert(uint_text_val(d) == id);
    let rest = t.skip(first_colon(t) + 1);
    assert(rest =~= count);
    lemma_real_no_colon(count);
    lemma_first_colon(rest);
    assert(first_colon(rest) == rest.len()) by {
        if first_colon(rest) < rest.len() {
            assert(rest[first_colon(rest)] == ':');
            assert(count[first_colon(rest)] != ':');
        }
    }
    assert(count_field(t) =~= count);
}

/// Parsing a token and rendering the record yields a token that parses to
/// the same id and count: parse-then-reserialise is faithful.
pub proof fn lemma_parse_reserialize(t: Seq<char>)
    requires
        token_ok(t),
    ensures
        token_ok(encoded_token(token_id(t), token_count(t))),
        token_id(encoded_token(token_id(t), token_count(t))) == token_id(t),
        token_count(encoded_token(token_id(t), token_count(t))) == token_count(t),
{
    lemma_token_round_trip(token_id(t), token_count(t));
}

} // verus!
