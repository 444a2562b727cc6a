//! The resolver core: address parsing, the DNS lookup name, and the
//! aggregation of TXT records into a single payment instruction.
//!
//! The DNS lookup itself is a collaborator outside this crate: a caller
//! issues one TXT query for `lookup_name` and hands the returned records,
//! as [`TxtRecord`] values, to `resolve_records`.

use vstd::prelude::*;
use vstd::utf8::decode_utf8;
use vstd::utf8::valid_utf8;
use crate::error::Bip353Error;
use crate::instruction::has_scheme;
use crate::instruction::has_scheme_prefix;
use crate::instruction::PaymentInstruction;
use crate::text::count_char;
use crate::text::lemma_find_idx_is;
use crate::text::trim_spec;
use crate::text::trim_str;
use crate::text::find_idx;

verus! {

/// The Bitcoin currency glyph that may prefix an address.
pub open spec fn currency_glyph() -> char {
    '\u{20BF}'
}

/// At most one leading currency glyph, stripped.
pub open spec fn strip_glyph(s: Seq<char>) -> Seq<char> {
    if s.len() > 0 && s[0] == currency_glyph() {
        s.skip(1)
    } else {
        s
    }
}

/// The user and domain that an address denotes, if it is well formed: the
/// address trimmed, at most one leading currency glyph stripped, split at
/// a sole `@`, and both segments trimmed and non-empty.
pub open spec fn parse_address_spec(raw: Seq<char>) -> Option<(Seq<char>, Seq<char>)> {
    let t = strip_glyph(trim_spec(raw));
    if count_char(t, '@') == 1 {
        match find_idx(t, '@') {
            Some(i) => {
                let user = trim_spec(t.take(i));
                let domain = trim_spec(t.skip(i + 1));
                if user.len() > 0 && domain.len() > 0 {
                    Some((user, domain))
                } else {
                    None
                }
            },
            None => None,
        }
    } else {
        None
    }
}

/// One DNS TXT record: its character-string segments, in order, as DNS
/// returned them.
#[derive(Debug, Clone)]
pub struct TxtRecord {
    /// The byte segments of the record.
    pub segments: Vec<Vec<u8>>,
}

impl View for TxtRecord {
    type V = Seq<Seq<u8>>;

    open spec fn view(&self) -> Seq<Seq<u8>> {
        Seq::new(self.segments@.len(), |i: int| self.segments@[i]@)
    }
}

/// What decoding a byte sequence tolerantly to text yields.
pub uninterp spec fn utf8_lossy_of(bytes: Seq<u8>) -> Seq<char>;

/// Relies on `String::from_utf8_lossy`: the result depends on the bytes
/// alone, and valid UTF-8 decodes to exactly its own characters.
#[verifier::external_body]
fn utf8_lossy(bytes: &Vec<u8>) -> (r: String)
    ensures
        r@ == utf8_lossy_of(bytes@),
        valid_utf8(bytes@) ==> r@ == decode_utf8(bytes@),
{
    String::from_utf8_lossy(bytes).into_owned()
}

/// The text of one TXT record: its segments decoded tolerantly and
/// concatenated in order.
pub open spec fn record_text(segs: Seq<Seq<u8>>) -> Seq<char>
    decreases segs.len(),
{
    if segs.len() == 0 {
        Seq::empty()
    } else {
        record_text(segs.drop_last()) + utf8_lossy_of(segs.last())
    }
}

/// Whether a record's text is a candidate URI: trimmed, it begins with
/// the `bitcoin:` scheme, compared without regard to letter case.
pub open spec fn is_candidate(txt: Seq<char>) -> bool {
    has_scheme_prefix(trim_spec(txt))
}

/// The candidate URIs among the records' texts, in order, untrimmed.
pub open spec fn candidate_uris(records: Seq<TxtRecord>) -> Seq<Seq<char>> {
    records.map_values(|r: TxtRecord| record_text(r@)).filter(|t: Seq<char>| is_candidate(t))
}

/// Decodes and concatenates the segments of one record.
fn record_string(rec: &TxtRecord) -> (r: String)
    ensures
        r@ == record_text(rec@),
{
    let n = rec.segments.len();
    let mut s = String::new();
    let mut i: usize = 0;
    while i < n
        invariant
            n == rec.segments@.len(),
            i <= n,
            s@ == record_text(rec@.take(i as int)),
        decreases n - i,
    {
        let piece = utf8_lossy(&rec.segments[i]);
        s.append(piece.as_str());
        proof {
            assert(rec@.take(i + 1int).drop_last() =~= rec@.take(i as int));
            assert(rec@.take(i + 1int).last() == rec.segments@[i as int]@);
        }
        i = i + 1;
    }
    proof {
        assert(rec@.take(n as int) =~= rec@);
    }
    s
}

/// The resolver core.  It is stateless: the DNS client belongs to the
/// caller, which queries the TXT records of `lookup_name` and hands them
/// to `resolve_records`.
pub struct Resolver {}

impl Resolver {
    /// Parses a human-readable Bitcoin address into its user and domain.
    pub fn parse_address(address: &str) -> (r: Result<(String, String), Bip353Error>)
        ensures
            match r {
                Ok(p) => parse_address_spec(address@) == Some((p.0@, p.1@)),
                Err(e) => parse_address_spec(address@) is None && (e
                    matches Bip353Error::InvalidAddress(_)),
            },
    {
        let t0 = trim_str(address);
        let n0 = t0.unicode_len();
        let t = if n0 > 0 && t0.get_char(0) == '\u{20BF}' {
            t0.substring_char(1, n0)
        } else {
            t0
        };
        proof {
            if n0 > 0 && t0@[0] == currency_glyph() {
                assert(t0@.subrange(1, n0 as int) =~= t0@.skip(1));
            }
            assert(t@ == strip_glyph(trim_spec(address@)));
        }
        let n = t.unicode_len();
        let mut cnt: usize = 0;
        let mut first: Option<usize> = None;
        let mut i: usize = 0;
        while i < n
            invariant
                n == t@.len(),
                i <= n,
                cnt <= i,
                cnt == count_char(t@.take(i as int), '@'),
                match first {
                    Some(f) => f < i && t@[f as int] == '@' && (forall|j: int|
                        0 <= j < f ==> t@[j] != '@'),
                    None => forall|j: int| 0 <= j < i ==> t@[j] != '@',
                },
                first is None ==> cnt == 0,
                first is Some ==> cnt >= 1,
            decreases n - i,
        {
            proof {
                assert(t@.take(i + 1int).drop_last() =~= t@.take(i as int));
                assert(t@.take(i + 1int).last() == t@[i as int]);
            }
            if t.get_char(i) == '@' {
                cnt = cnt + 1;
                if first.is_none() {
                    first = Some(i);
                }
            }
            i = i + 1;
        }
        proof {
            assert(t@.take(n as int) =~= t@);
        }
        if cnt != 1 {
            return Err(Bip353Error::InvalidAddress(String::from_str(
                "Address must be in format user@domain")));
        }
        let fi = match first {
            Some(f) => f,
            None => 0,
        };
        proof {
            lemma_find_idx_is(t@, '@', fi as int);
        }
        let user_raw = t.substring_char(0, fi);
        let domain_raw = t.substring_char(fi + 1, n);
        proof {
            assert(user_raw@ =~= t@.take(fi as int));
            assert(domain_raw@ =~= t@.skip(fi + 1int));
        }
        let user = trim_str(user_raw);
        let domain = trim_str(domain_raw);
        if user.unicode_len() == 0 || domain.unicode_len() == 0 {
            return Err(Bip353Error::InvalidAddress(String::from_str(
                "User and domain cannot be empty")));
        }
        Ok((user.to_owned(), domain.to_owned()))
    }

    /// The fully-qualified DNS name whose TXT records hold the payment
    /// instruction for `user` at `domain`.
    pub fn lookup_name(user: &str, domain: &str) -> (r: String)
        ensures
            r@ == user@ + ".user._bitcoin-payment."@ + domain@,
    {
        let mut s = String::from_str(user);
        s.append(".user._bitcoin-payment.");
        s.append(domain);
        s
    }

    /// Keeps, across all records, the texts that are candidate URIs, and
    /// hands back the sole survivor; zero or several is an error.
    fn select_uri(records: &Vec<TxtRecord>) -> (r: Result<String, Bip353Error>)
        ensures
            ({
                let cands = candidate_uris(records@);
                match r {
                    Ok(u) => cands.len() == 1 && u@ == cands[0],
                    Err(e) => cands.len() != 1 && (e matches Bip353Error::InvalidRecord(_))
                        && (cands.len() == 0 ==> e.message_view() == "No Bitcoin URI found"@)
                        && (cands.len() > 1 ==> e.message_view()
                            == "Multiple Bitcoin URIs found"@),
                }
            }),
    {
        let n = records.len();
        let mut cands: Vec<String> = Vec::new();
        let mut i: usize = 0;
        while i < n
            invariant
                n == records@.len(),
                i <= n,
                cands@.map_values(|s: String| s@) =~= candidate_uris(records@.take(i as int)),
            decreases n - i,
        {
            let txt = record_string(&records[i]);
            let trimmed = trim_str(txt.as_str());
            let keep = has_scheme(trimmed);
            let ghost prev = cands@;
            if keep {
                cands.push(txt);
            }
            proof {
                reveal(Seq::filter);
                let m = records@.take(i + 1int).map_values(|r: TxtRecord| record_text(r@));
                let mprev = records@.take(i as int).map_values(|r: TxtRecord| record_text(r@));
                assert(m.drop_last() =~= mprev);
                assert(m.last() == record_text(records@[i as int]@));
                assert(keep == is_candidate(m.last()));
                if keep {
                    assert(cands@.map_values(|s: String| s@) =~= candidate_uris(
                        records@.take(i as int)).push(txt@));
                } else {
                    assert(cands@.map_values(|s: String| s@) =~= candidate_uris(
                        records@.take(i as int)));
                }
            }
            i = i + 1;
        }
        proof {
            assert(records@.take(n as int) =~= records@);
        }
        if cands.len() == 1 {
            let u = match cands.pop() {
                Some(u) => u,
                None => String::new(),
            };
            proof {
                assert(u@ == candidate_uris(records@)[0]);
            }
            Ok(u)
        } else if cands.len() == 0 {
            Err(Bip353Error::InvalidRecord(String::from_str("No Bitcoin URI found")))
        } else {
            Err(Bip353Error::InvalidRecord(String::from_str("Multiple Bitcoin URIs found")))
        }
    }

    /// Aggregates the TXT records of one lookup and parses the sole
    /// surviving candidate URI into a payment instruction.
    pub fn resolve_records(records: &Vec<TxtRecord>) -> (r: Result<
        PaymentInstruction,
        Bip353Error,
    >)
        ensures
            ({
                let cands = candidate_uris(records@);
                match r {
                    Ok(ins) => cands.len() == 1 && has_scheme_prefix(cands[0])
                        && ins.parsed_from(cands[0]),
                    Err(e) => (cands.len() != 1 || !has_scheme_prefix(cands[0])) && (e
                        matches Bip353Error::InvalidRecord(_)),
                }
            }),
    {
        match Self::select_uri(records) {
            Ok(u) => PaymentInstruction::from_uri(u.as_str()),
            Err(e) => Err(e),
        }
    }
}

} // verus!
