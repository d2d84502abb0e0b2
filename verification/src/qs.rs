//! Query-string parsing: the part of a URL after `?`, split into
//! `key=value` pairs.
//!
//! Values are kept verbatim: no percent-decoding is applied.  The values
//! this crate reads (content ids, playback parameters such as the
//! authentication blob) are either plain identifiers or are spliced
//! unchanged into the query string of a follow-up request, where decoding
//! and re-encoding them would at best be the identity and at worst corrupt
//! an escape.

use vstd::prelude::*;

verus! {

use vstd::string::StrSliceExecFns;
use crate::text::{find_char, spec_find_char, str_eq, to_string};

/// One `key=value` segment: the characters before the first `=` and those
/// after it; a segment without `=` is a key with an empty value.
pub open spec fn pair_of(seg: Seq<char>) -> (Seq<char>, Seq<char>) {
    match spec_find_char(seg, '=') {
        Option::Some(i) => if 0 <= i < seg.len() {
            (seg.take(i), seg.skip(i + 1))
        } else {
            (seg, Seq::empty())
        },
        Option::None => (seg, Seq::empty()),
    }
}

/// The pairs of a raw query string: segments between `&`, empty segments
/// skipped, each segment split at its first `=`.
pub open spec fn parse_pairs(q: Seq<char>) -> Seq<(Seq<char>, Seq<char>)>
    decreases q.len(),
{
    match spec_find_char(q, '&') {
        Option::None => if q.len() == 0 {
            Seq::empty()
        } else {
            seq![pair_of(q)]
        },
        Option::Some(i) => if 0 <= i < q.len() {
            (if i == 0 {
                Seq::empty()
            } else {
                seq![pair_of(q.take(i))]
            }) + parse_pairs(q.skip(i + 1))
        } else {
            Seq::empty()
        },
    }
}

/// The pairs of a URL's query string: everything after the first `?`,
/// parsed by [`parse_pairs`]; a URL without `?` has none.
pub open spec fn query_pairs_of(url: Seq<char>) -> Seq<(Seq<char>, Seq<char>)> {
    match spec_find_char(url, '?') {
        Option::Some(i) => if 0 <= i < url.len() {
            parse_pairs(url.skip(i + 1))
        } else {
            Seq::empty()
        },
        Option::None => Seq::empty(),
    }
}

/// The value of the first pair whose key is `key`, if any.
pub open spec fn spec_get(
    pairs: Seq<(Seq<char>, Seq<char>)>,
    key: Seq<char>,
) -> Option<Seq<char>>
    decreases pairs.len(),
{
    if pairs.len() == 0 {
        Option::None
    } else if pairs[0].0 == key {
        Option::Some(pairs[0].1)
    } else {
        spec_get(pairs.skip(1), key)
    }
}

/// The values of every pair bound to `key`, in order.
pub open spec fn spec_values_for(
    pairs: Seq<(Seq<char>, Seq<char>)>,
    key: Seq<char>,
) -> Seq<Seq<char>>
    decreases pairs.len(),
{
    if pairs.len() == 0 {
        Seq::empty()
    } else {
        let prev = spec_values_for(pairs.drop_last(), key);
        if pairs.last().0 == key {
            prev.push(pairs.last().1)
        } else {
            prev
        }
    }
}

/// A parsed query string.
pub struct Query {
    pairs: Vec<(String, String)>,
}

/// Split a segment at its first `=`.
fn split_pair(seg: &str) -> (r: (String, String))
    ensures
        (r.0@, r.1@) == pair_of(seg@),
{
    let n = seg.unicode_len();
    match find_char(seg, '=') {
        Some(i) => {
            proof {
                crate::text::lemma_find_char(seg@, '=');
            }
            let key = to_string(seg.substring_char(0, i));
            let val = to_string(seg.substring_char(i + 1, n));
            proof {
                assert(seg@.subrange(0, i as int) =~= seg@.take(i as int));
                assert(seg@.subrange(i + 1, n as int) =~= seg@.skip(i + 1));
            }
            (key, val)
        },
        None => (to_string(seg), String::new()),
    }
}

impl Query {
    /// The parsed pairs, as character sequences.
    pub closed spec fn view(&self) -> Seq<(Seq<char>, Seq<char>)> {
        self.pairs@.map_values(|p: (String, String)| (p.0@, p.1@))
    }

    /// Parse the query string of `url`: the pairs after its first `?`.
    pub fn from_str(url: &str) -> (q: Query)
        ensures
            q@ == query_pairs_of(url@),
    {
        let n = url.unicode_len();
        let mut pairs: Vec<(String, String)> = Vec::new();
        let mut rest: String = match find_char(url, '?') {
            Some(i) => {
                proof {
                    crate::text::lemma_find_char(url@, '?');
                    assert(url@.subrange(i + 1, n as int) =~= url@.skip(i + 1));
                }
                to_string(url.substring_char(i + 1, n))
            },
            None => {
                proof {
                    assert(pairs@.map_values(|p: (String, String)| (p.0@, p.1@))
                        =~= Seq::<(Seq<char>, Seq<char>)>::empty());
                }
                return Query { pairs };
            },
        };
        let ghost q0 = rest@;
        loop
            invariant
                pairs@.map_values(|p: (String, String)| (p.0@, p.1@)) + parse_pairs(rest@)
                    =~= parse_pairs(q0),
            ensures
                rest@.len() == 0,
                pairs@.map_values(|p: (String, String)| (p.0@, p.1@)) + parse_pairs(rest@)
                    =~= parse_pairs(q0),
            decreases rest@.len() + 1,
        {
            let rlen = rest.as_str().unicode_len();
            if rlen == 0 {
                break ;
            }
            let ghost pre = pairs@.map_values(|p: (String, String)| (p.0@, p.1@));
            match find_char(rest.as_str(), '&') {
                Some(i) => {
                    proof {
                        crate::text::lemma_find_char(rest@, '&');
                    }
                    if i > 0 {
                        let seg = rest.as_str().substring_char(0, i);
                        proof {
                            assert(rest@.subrange(0, i as int) =~= rest@.take(i as int));
                        }
                        let p = split_pair(seg);
                        pairs.push(p);
                        proof {
                            assert(pairs@.map_values(|p: (String, String)| (p.0@, p.1@)) =~= pre
                                + seq![pair_of(rest@.take(i as int))]);
                        }
                    }
                    let next = to_string(rest.as_str().substring_char(i + 1, rlen));
                    proof {
                        assert(rest@.subrange(i + 1, rlen as int) =~= rest@.skip(i + 1));
                    }
                    rest = next;
                },
                None => {
                    let p = split_pair(rest.as_str());
                    pairs.push(p);
                    proof {
                        assert(pairs@.map_values(|p: (String, String)| (p.0@, p.1@)) =~= pre
                            + seq![pair_of(rest@)]);
                    }
                    rest = String::new();
                },
            }
        }
        proof {
            assert(parse_pairs(rest@) =~= Seq::<(Seq<char>, Seq<char>)>::empty());
            assert(pairs@.map_values(|p: (String, String)| (p.0@, p.1@)) =~= parse_pairs(q0));
        }
        Query { pairs }
    }

    /// The value of the first pair whose key is `key`, if any.
    pub fn get(&self, key: &str) -> (r: Option<String>)
        ensures
            match spec_get(self@, key@) {
                Option::Some(v) => r matches Option::Some(x) && x@ == v,
                Option::None => r is None,
            },
    {
        let mut i: usize = 0;
        proof {
            assert(self@.skip(0) =~= self@);
        }
        while i < self.pairs.len()
            invariant
                0 <= i <= self.pairs@.len(),
                forall|j: int| 0 <= j < i ==> self.pairs@[j].0@ != key@,
                spec_get(self@, key@) == spec_get(self@.skip(i as int), key@),
            decreases self.pairs@.len() - i,
        {
            proof {
                assert(self@.skip(i as int)[0] == self@[i as int]);
                assert(self@.skip(i as int).skip(1) =~= self@.skip(i + 1));
            }
            if str_eq(self.pairs[i].0.as_str(), key) {
                return Some(self.pairs[i].1.clone());
            }
            i += 1;
        }
        proof {
            assert(self@.skip(self.pairs@.len() as int).len() == 0);
        }
        None
    }

    /// Every value bound to `key`, in order.
    pub fn values_for(&self, key: &str) -> (r: Vec<String>)
        ensures
            r@.map_values(|s: String| s@) == spec_values_for(self@, key@),
    {
        let mut r: Vec<String> = Vec::new();
        let mut i: usize = 0;
        while i < self.pairs.len()
            invariant
                0 <= i <= self.pairs@.len(),
                r@.map_values(|s: String| s@) =~= spec_values_for(self@.take(i as int), key@),
            decreases self.pairs@.len() - i,
        {
            proof {
                assert(self@.take(i + 1).drop_last() =~= self@.take(i as int));
                assert(self@.take(i + 1).last() == self@[i as int]);
            }
            if str_eq(self.pairs[i].0.as_str(), key) {
                r.push(self.pairs[i].1.clone());
            }
            i += 1;
        }
        proof {
            assert(self@.take(self@.len() as int) =~= self@);
            assert(r@.map_values(|s: String| s@) =~= spec_values_for(self@, key@));
        }
        r
    }

    /// How many pairs the query string held.
    pub fn len(&self) -> (r: usize)
        ensures
            r == self@.len(),
    {
        self.pairs.len()
    }
}

} // verus!
