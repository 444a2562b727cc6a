//! Payment instructions: the parameter container, the classification of a
//! `bitcoin:` URI, and its parsing into a typed instruction.

use vstd::prelude::*;
use vstd::map::*;
use crate::error::Bip353Error;
use crate::text::find_char;
use crate::text::find_idx;
use crate::text::lemma_find_idx;
use crate::text::lemma_find_idx_is;
use crate::text::lemma_find_idx_none;
use crate::text::str_eq;

verus! {

/// How a payment instruction is to be paid.
#[derive(Debug, Clone)]
pub enum PaymentType {
    OnChain,
    Lightning,
    LightningOffer,
    Unknown,
}

impl PaymentType {
    /// The conventional short name of the payment type.
    pub fn as_str(&self) -> (r: &'static str)
        ensures
            self is OnChain ==> r@ == "on-chain"@,
            self is Lightning ==> r@ == "lightning"@,
            self is LightningOffer ==> r@ == "lightning-offer"@,
            self is Unknown ==> r@ == "unknown"@,
    {
        match self {
            PaymentType::OnChain => "on-chain",
            PaymentType::Lightning => "lightning",
            PaymentType::LightningOffer => "lightning-offer",
            PaymentType::Unknown => "unknown",
        }
    }
}

/// The map that a sequence of key/value pairs denotes, a later pair
/// shadowing an earlier one with the same key.
spec fn pairs_map(s: Seq<(String, String)>) -> Map<Seq<char>, Seq<char>>
    decreases s.len(),
{
    if s.len() == 0 {
        Map::empty()
    } else {
        pairs_map(s.drop_last()).insert(s.last().0@, s.last().1@)
    }
}

/// URI query parameters: keys map to values, case preserved on both sides,
/// the last occurrence of a key winning.
#[derive(Debug, Clone)]
pub struct Params {
    pairs: Vec<(String, String)>,
}

impl View for Params {
    type V = Map<Seq<char>, Seq<char>>;

    closed spec fn view(&self) -> Map<Seq<char>, Seq<char>> {
        pairs_map(self.pairs@)
    }
}

proof fn lemma_pairs_map_last_match(s: Seq<(String, String)>, k: Seq<char>, i: int)
    requires
        0 <= i < s.len(),
        s[i].0@ == k,
        forall|j: int| i < j < s.len() ==> s[j].0@ != k,
    ensures
        pairs_map(s).contains_key(k),
        pairs_map(s)[k] == s[i].1@,
    decreases s.len(),
{
    if i == s.len() - 1 {
    } else {
        assert(s.last().0@ != k);
        assert(forall|j: int| i < j < s.drop_last().len() ==> s.drop_last()[j].0@ != k);
        lemma_pairs_map_last_match(s.drop_last(), k, i);
    }
}

proof fn lemma_pairs_map_no_match(s: Seq<(String, String)>, k: Seq<char>)
    requires
        forall|j: int| 0 <= j < s.len() ==> s[j].0@ != k,
    ensures
        !pairs_map(s).contains_key(k),
    decreases s.len(),
{
    if s.len() > 0 {
        assert(forall|j: int| 0 <= j < s.drop_last().len() ==> s.drop_last()[j].0@ != k);
        lemma_pairs_map_no_match(s.drop_last(), k);
    }
}

impl Params {
    /// An empty parameter map.
    pub fn new() -> (r: Params)
        ensures
            r@ == Map::<Seq<char>, Seq<char>>::empty(),
    {
        Params { pairs: Vec::new() }
    }

    /// Records `value` under `key`, shadowing any earlier value of the key.
    pub(crate) fn insert(&mut self, key: String, value: String)
        ensures
            final(self)@ == old(self)@.insert(key@, value@),
    {
        let ghost k = key@;
        let ghost v = value@;
        self.pairs.push((key, value));
        proof {
            assert(self.pairs@.drop_last() =~= old(self).pairs@);
            assert(self.pairs@.last().0@ == k);
            assert(self.pairs@.last().1@ == v);
        }
    }

    /// Looks a key up; `None` exactly when the key is absent.
    pub fn get<'a>(&'a self, key: &str) -> (r: Option<&'a String>)
        ensures
            match r {
                Some(v) => self@.contains_key(key@) && v@ == self@[key@],
                None => !self@.contains_key(key@),
            },
    {
        let mut i: usize = self.pairs.len();
        while i > 0
            invariant
                i <= self.pairs.len(),
                forall|j: int| i <= j < self.pairs@.len() ==> self.pairs@[j].0@ != key@,
            decreases i,
    {
            i = i - 1;
            if str_eq(self.pairs[i].0.as_str(), key) {
                proof {
                    lemma_pairs_map_last_match(self.pairs@, key@, i as int);
                }
                return Some(&self.pairs[i].1);
            }
        }
        proof {
            lemma_pairs_map_no_match(self.pairs@, key@);
        }
        None
    }

    /// Whether any parameter at all is present.
    pub fn is_empty(&self) -> (r: bool)
        ensures
            r == (self@ == Map::<Seq<char>, Seq<char>>::empty()),
    {
        proof {
            if self.pairs@.len() == 0 {
                assert(self@ =~= Map::<Seq<char>, Seq<char>>::empty());
            } else {
                assert(self@.contains_key(self.pairs@.last().0@));
                assert(!Map::<Seq<char>, Seq<char>>::empty().contains_key(
                    self.pairs@.last().0@));
            }
        }
        self.pairs.len() == 0
    }
}

/// Whether the URI begins with the `bitcoin:` scheme, compared without
/// regard to letter case.
pub open spec fn has_scheme_prefix(u: Seq<char>) -> bool {
    &&& u.len() >= 8
    &&& (u[0] == 'b' || u[0] == 'B')
    &&& (u[1] == 'i' || u[1] == 'I')
    &&& (u[2] == 't' || u[2] == 'T')
    &&& (u[3] == 'c' || u[3] == 'C')
    &&& (u[4] == 'o' || u[4] == 'O')
    &&& (u[5] == 'i' || u[5] == 'I')
    &&& (u[6] == 'n' || u[6] == 'N')
    &&& u[7] == ':'
}

/// Checks the URI for the `bitcoin:` scheme, without regard to letter case.
pub(crate) fn has_scheme(uri: &str) -> (b: bool)
    ensures
        b == has_scheme_prefix(uri@),
{
    if uri.unicode_len() < 8 {
        return false;
    }
    let c0 = uri.get_char(0);
    let c1 = uri.get_char(1);
    let c2 = uri.get_char(2);
    let c3 = uri.get_char(3);
    let c4 = uri.get_char(4);
    let c5 = uri.get_char(5);
    let c6 = uri.get_char(6);
    (c0 == 'b' || c0 == 'B') && (c1 == 'i' || c1 == 'I') && (c2 == 't' || c2 == 'T') && (c3
        == 'c' || c3 == 'C') && (c4 == 'o' || c4 == 'O') && (c5 == 'i' || c5 == 'I') && (c6
        == 'n' || c6 == 'N') && uri.get_char(7) == ':'
}

/// The pair that one `&`-separated query chunk yields: the part before the
/// first `=` is the key, the part after it the value; a chunk without `=`
/// yields nothing.
pub open spec fn chunk_map(c: Seq<char>) -> Map<Seq<char>, Seq<char>> {
    match find_idx(c, '=') {
        Some(i) => map![c.take(i) => c.skip(i + 1)],
        None => Map::empty(),
    }
}

/// The parameters that a query string yields: its chunks, split on `&`,
/// each contribute their pair, a later chunk winning over an earlier one.
pub open spec fn query_params(q: Seq<char>) -> Map<Seq<char>, Seq<char>>
    decreases q.len(),
        via query_params_decreases
{
    match find_idx(q, '&') {
        Some(i) => chunk_map(q.take(i)).union_prefer_right(query_params(q.skip(i + 1))),
        None => chunk_map(q),
    }
}

#[via_fn]
proof fn query_params_decreases(q: Seq<char>) {
    lemma_find_idx(q, '&');
}

/// The parameters of a `bitcoin:` URI: those of the query string after the
/// first `?`, or none when the URI has no query.
pub open spec fn uri_params(u: Seq<char>) -> Map<Seq<char>, Seq<char>> {
    match find_idx(u, '?') {
        Some(i) => query_params(u.skip(i + 1)),
        None => Map::empty(),
    }
}

/// The path of the URI: what stands between the scheme prefix and the
/// first `?`, or everything after the prefix when the URI has no query.
pub open spec fn uri_path(u: Seq<char>) -> Seq<char> {
    match find_idx(u, '?') {
        Some(i) => u.subrange(8, i),
        None => u.skip(8),
    }
}

/// The characters of the `lightning` parameter key.
pub open spec fn lightning_key() -> Seq<char> {
    seq!['l', 'i', 'g', 'h', 't', 'n', 'i', 'n', 'g']
}

/// The characters of the `lno` parameter key.
pub open spec fn lno_key() -> Seq<char> {
    seq!['l', 'n', 'o']
}

/// The classification of a URI, in order of precedence: a `lightning`
/// parameter, an `lno` parameter, a non-empty path, nothing.
pub open spec fn uri_payment_type(u: Seq<char>) -> PaymentType {
    if uri_params(u).contains_key(lightning_key()) {
        PaymentType::Lightning
    } else if uri_params(u).contains_key(lno_key()) {
        PaymentType::LightningOffer
    } else if uri_path(u).len() > 0 {
        PaymentType::OnChain
    } else {
        PaymentType::Unknown
    }
}

/// Whether an instruction for the URI may be reused for more than one
/// payment: only a Lightning invoice is single-use.
pub open spec fn uri_is_reusable(u: Seq<char>) -> bool {
    !uri_params(u).contains_key(lightning_key())
}

/// Splits the query string after `qstart` on `&`, takes the first `=` of
/// each chunk as its key/value divide, and records the pairs in `params`.
fn parse_query(uri: &str, qstart: usize, params: &mut Params)
    requires
        qstart <= uri@.len(),
    ensures
        final(params)@ == old(params)@.union_prefer_right(
            query_params(uri@.skip(qstart as int))),
{
    let n = uri.unicode_len();
    let mut pos: usize = qstart;
    loop
        invariant_except_break
            n == uri@.len(),
            qstart <= pos <= n,
            old(params)@.union_prefer_right(query_params(uri@.skip(qstart as int)))
                == params@.union_prefer_right(query_params(uri@.skip(pos as int))),
        ensures
            params@ == old(params)@.union_prefer_right(
                query_params(uri@.skip(qstart as int))),
        decreases n - pos,
    {
        let ghost rem = uri@.skip(pos as int);
        let amp = find_char(uri, pos, '&');
        let chunk_end = match amp {
            Some(i) => i,
            None => n,
        };
        proof {
            assert(forall|j: int| 0 <= j < rem.len() ==> rem[j] == uri@[j + pos]);
            match amp {
                Some(i) => {
                    assert(rem[i - pos] == '&');
                    lemma_find_idx_is(rem, '&', i - pos);
                },
                None => {
                    lemma_find_idx_none(rem, '&');
                },
            }
        }
        let ghost chunk = rem.take(chunk_end - pos);
        proof {
            match amp {
                Some(i) => {},
                None => {
                    assert(chunk =~= rem);
                },
            }
        }
        let eq = find_char(uri, pos, '=');
        let eq_in_chunk = match eq {
            Some(e) => if e < chunk_end {
                Some(e)
            } else {
                None
            },
            None => None,
        };
        proof {
            assert(forall|j: int| 0 <= j < chunk.len() ==> chunk[j] == uri@[j + pos]);
            match eq_in_chunk {
                Some(e) => {
                    assert(chunk[e - pos] == '=');
                    lemma_find_idx_is(chunk, '=', e - pos);
                },
                None => {
                    lemma_find_idx_none(chunk, '=');
                },
            }
        }
        let ghost params_before = params@;
        if let Some(e) = eq_in_chunk {
            let key = uri.substring_char(pos, e);
            let value = uri.substring_char(e + 1, chunk_end);
            let ghost kv = (key@, value@);
            proof {
                assert(key@ =~= chunk.take(e - pos));
                assert(value@ =~= chunk.skip(e - pos + 1));
            }
            params.insert(String::from_str(key), String::from_str(value));
            proof {
                assert(params@ == params_before.insert(kv.0, kv.1));
                assert(chunk_map(chunk) =~= map![kv.0 => kv.1]);
            }
        } else {
            proof {
                assert(chunk_map(chunk) =~= Map::<Seq<char>, Seq<char>>::empty());
            }
        }
        proof {
            // One chunk is folded into `params`; what the rest of the query
            // yields stays the same on both sides of the invariant.
            let qrest = query_params(uri@.skip(chunk_end + 1int));
            match amp {
                Some(i) => {
                    assert(rem.skip(i - pos + 1) =~= uri@.skip(i + 1int));
                    assert(query_params(rem) == chunk_map(chunk).union_prefer_right(qrest));
                    assert(params_before.union_prefer_right(query_params(rem))
                        == params@.union_prefer_right(qrest)) by {
                        assert(params_before.union_prefer_right(
                            chunk_map(chunk).union_prefer_right(qrest))
                            =~= params@.union_prefer_right(qrest));
                    }
                },
                None => {
                    assert(query_params(rem) == chunk_map(chunk));
                    assert(params_before.union_prefer_right(query_params(rem)) =~= params@);
                },
            }
        }
        match amp {
            Some(i) => {
                pos = i + 1;
            },
            None => {
                break;
            },
        }
    }
}

/// A structured payment instruction, as parsed from a `bitcoin:` URI.
#[derive(Debug, Clone)]
pub struct PaymentInstruction {
    /// The original URI, kept exactly as it was received.
    pub uri: String,
    /// How the instruction is to be paid.
    pub payment_type: PaymentType,
    /// Whether the instruction may be reused for more than one payment.
    pub is_reusable: bool,
    /// The query parameters of the URI, verbatim.
    pub parameters: Params,
}

impl PaymentInstruction {
    /// What a successful parse of the URI characters `u` promises.
    pub open spec fn parsed_from(&self, u: Seq<char>) -> bool {
        &&& self.uri@ == u
        &&& self.payment_type == uri_payment_type(u)
        &&& self.is_reusable == uri_is_reusable(u)
        &&& self.parameters@ == uri_params(u)
    }

    /// Parses a payment instruction from a Bitcoin URI.  Exactly the URIs
    /// with the `bitcoin:` scheme (compared without regard to letter case)
    /// are accepted; the instruction keeps the input unmodified.
    pub fn from_uri(uri: &str) -> (r: Result<PaymentInstruction, Bip353Error>)
        ensures
            r is Ok <==> has_scheme_prefix(uri@),
            r matches Ok(ins) ==> ins.parsed_from(uri@),
            r matches Err(e) ==> e matches Bip353Error::InvalidRecord(_),
    {
        let n = uri.unicode_len();
        if !has_scheme(uri) {
            return Err(Bip353Error::InvalidRecord(String::from_str(
                "URI must start with 'bitcoin:'")));
        }
        let q = find_char(uri, 0, '?');
        proof {
            match q {
                Some(i) => {
                    lemma_find_idx_is(uri@, '?', i as int);
                    assert(i >= 8);
                },
                None => {
                    lemma_find_idx_none(uri@, '?');
                },
            }
        }
        let mut parameters = Params::new();
        if let Some(qi) = q {
            parse_query(uri, qi + 1, &mut parameters);
            proof {
                assert(parameters@ =~= query_params(uri@.skip(qi + 1int)));
            }
        }
        let has_lightning = {
            proof {
                reveal_strlit("lightning");
                assert("lightning"@ =~= lightning_key());
            }
            parameters.get("lightning").is_some()
        };
        let has_lno = {
            proof {
                reveal_strlit("lno");
                assert("lno"@ =~= lno_key());
            }
            parameters.get("lno").is_some()
        };
        let path_non_empty = match q {
            Some(qi) => qi > 8,
            None => n > 8,
        };
        let (payment_type, is_reusable) = if has_lightning {
            (PaymentType::Lightning, false)
        } else if has_lno {
            (PaymentType::LightningOffer, true)
        } else if path_non_empty {
            (PaymentType::OnChain, true)
        } else {
            (PaymentType::Unknown, true)
        };
        Ok(PaymentInstruction {
            uri: uri.to_owned(),
            payment_type,
            is_reusable,
            parameters,
        })
    }
}

} // verus!
