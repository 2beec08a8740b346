//! Raw accounting records.
//!
//! A [`RawRecord`] is the parsed form of one accounting file: the `key:value`
//! lines whose key carries the recognized `drm` namespace prefix, with the
//! value's leading blanks trimmed.  Later occurrences of a key shadow earlier
//! ones, so a lookup scans from the end.

use vstd::prelude::*;
use crate::parse::{
    bytes_eq, find_byte, find_byte_from, lemma_find_byte_bounds, subvec, trim_start,
    trim_start_vec,
};

verus! {

/// The key `drm-client-id` that tags a record with its open-context identifier.
pub open spec fn key_client_id() -> Seq<u8> {
    seq![100u8, 114u8, 109u8, 45u8, 99u8, 108u8, 105u8, 101u8, 110u8, 116u8, 45u8, 105u8, 100u8]
}

/// The key `drm-pdev` that names the physical device a record belongs to.
pub open spec fn key_pdev() -> Seq<u8> {
    seq![100u8, 114u8, 109u8, 45u8, 112u8, 100u8, 101u8, 118u8]
}

pub fn client_id_key() -> (r: [u8; 13])
    ensures
        r@ == key_client_id(),
{
    let r = [100u8, 114u8, 109u8, 45u8, 99u8, 108u8, 105u8, 101u8, 110u8, 116u8, 45u8, 105u8, 100u8];
    proof {
        assert(r@ =~= key_client_id());
    }
    r
}

pub fn pdev_key() -> (r: [u8; 8])
    ensures
        r@ == key_pdev(),
{
    let r = [100u8, 114u8, 109u8, 45u8, 112u8, 100u8, 101u8, 118u8];
    proof {
        assert(r@ =~= key_pdev());
    }
    r
}

/// View of a key/value pair list as a sequence of byte sequences.
pub open spec fn pairs_view(ps: Seq<(Vec<u8>, Vec<u8>)>) -> Seq<(Seq<u8>, Seq<u8>)> {
    Seq::new(ps.len(), |i: int| (ps[i].0@, ps[i].1@))
}

/// The value of the last pair carrying key `k`, if any: later lines of an
/// accounting file shadow earlier ones.
pub open spec fn lookup(ps: Seq<(Seq<u8>, Seq<u8>)>, k: Seq<u8>) -> Option<Seq<u8>>
    decreases ps.len(),
{
    if ps.len() == 0 {
        None
    } else if ps.last().0 == k {
        Some(ps.last().1)
    } else {
        lookup(ps.drop_last(), k)
    }
}

/// One accounting file's recognized `key:value` lines, in file order.
pub struct RawRecord {
    pub pairs: Vec<(Vec<u8>, Vec<u8>)>,
}

impl View for RawRecord {
    type V = Seq<(Seq<u8>, Seq<u8>)>;

    open spec fn view(&self) -> Seq<(Seq<u8>, Seq<u8>)> {
        pairs_view(self.pairs@)
    }
}

impl RawRecord {
    pub fn new() -> (r: RawRecord)
        ensures
            r@ == Seq::<(Seq<u8>, Seq<u8>)>::empty(),
    {
        let r = RawRecord { pairs: Vec::new() };
        proof {
            assert(r@ =~= Seq::<(Seq<u8>, Seq<u8>)>::empty());
        }
        r
    }

    /// Looks a key up, returning the value of its last occurrence.
    pub fn get(&self, key: &[u8]) -> (r: Option<&Vec<u8>>)
        ensures
            match r {
                Some(v) => lookup(self@, key@) == Some(v@),
                None => lookup(self@, key@) is None,
            },
    {
        let n = self.pairs.len();
        let mut i = n;
        proof {
            assert(self@.take(n as int) =~= self@);
        }
        while i > 0
            invariant
                0 <= i <= n,
                n == self.pairs@.len(),
                lookup(self@, key@) == lookup(self@.take(i as int), key@),
            decreases i,
        {
            i = i - 1;
            if bytes_eq(self.pairs[i].0.as_slice(), key) {
                proof {
                    assert(self@.take(i + 1).last() == (self.pairs@[i as int].0@, self.pairs@[i as int].1@));
                    assert(lookup(self@.take(i + 1), key@) == Some(self.pairs@[i as int].1@));
                }
                return Some(&self.pairs[i].1);
            }
            proof {
                assert(self@.take(i + 1).drop_last() =~= self@.take(i as int));
            }
        }
        proof {
            assert(self@.take(0) =~= Seq::<(Seq<u8>, Seq<u8>)>::empty());
        }
        None
    }
}

/// A line without its trailing carriage return, if it has one.
pub open spec fn strip_cr(l: Seq<u8>) -> Seq<u8> {
    if l.len() > 0 && l.last() == 13u8 {
        l.drop_last()
    } else {
        l
    }
}

/// Whether a line begins with the recognized `drm` accounting prefix.
pub open spec fn starts_drm(l: Seq<u8>) -> bool {
    l.len() >= 3 && l[0] == 100u8 && l[1] == 114u8 && l[2] == 109u8
}

/// The pair a single line contributes: recognized lines split at the first
/// colon into key and trimmed value (an empty pair when no colon is there),
/// other lines contribute nothing.
pub open spec fn line_entry(l: Seq<u8>) -> Option<(Seq<u8>, Seq<u8>)> {
    if starts_drm(l) {
        let c = find_byte(l, 58u8, 0);
        if c == l.len() {
            Some((Seq::empty(), Seq::empty()))
        } else {
            Some((l.take(c), trim_start(l.skip(c + 1))))
        }
    } else {
        None
    }
}

/// The pairs contributed by the lines of `s` from position `i` on.
pub open spec fn parse_pairs(s: Seq<u8>, i: int) -> Seq<(Seq<u8>, Seq<u8>)>
    decreases s.len() + 1 - i,
    via parse_pairs_dec

{
    if i < 0 || i >= s.len() {
        Seq::empty()
    } else {
        let e = find_byte(s, 10u8, i);
        let rest = parse_pairs(s, e + 1);
        match line_entry(strip_cr(s.subrange(i, e))) {
            Some(p) => seq![p] + rest,
            None => rest,
        }
    }
}

#[via_fn]
proof fn parse_pairs_dec(s: Seq<u8>, i: int) {
    if 0 <= i < s.len() {
        lemma_find_byte_bounds(s, 10u8, i);
    }
}

/// Parses one accounting file's content into its recognized lines.
pub fn parse_record(content: &[u8]) -> (r: RawRecord)
    ensures
        r@ == parse_pairs(content@, 0),
{
    let n = content.len();
    let mut pairs: Vec<(Vec<u8>, Vec<u8>)> = Vec::new();
    let mut i: usize = 0;
    while i < n
        invariant
            0 <= i <= n,
            n == content@.len(),
            pairs_view(pairs@) + parse_pairs(content@, i as int) =~= parse_pairs(content@, 0),
        decreases n - i,
    {
        let e = find_byte_from(content, 10u8, i);
        proof {
            lemma_find_byte_bounds(content@, 10u8, i as int);
        }
        let line_end = if e > i && content[e - 1] == 13u8 {
            e - 1
        } else {
            e
        };
        let line = subvec(content, i, line_end);
        proof {
            let raw = content@.subrange(i as int, e as int);
            if e > i && content@[e - 1] == 13u8 {
                assert(raw.last() == content@[e - 1]);
                assert(line@ =~= raw.drop_last());
            } else {
                if raw.len() > 0 {
                    assert(raw.last() == content@[e - 1]);
                }
            }
            assert(line@ == strip_cr(raw));
        }
        let ghost prev = pairs_view(pairs@);
        if line.len() >= 3 && line[0] == 100 && line[1] == 114 && line[2] == 109 {
            let ll = line.len();
            let c = find_byte_from(line.as_slice(), 58u8, 0);
            if c == ll {
                pairs.push((Vec::new(), Vec::new()));
                proof {
                    assert(line_entry(line@) == Some((Seq::<u8>::empty(), Seq::<u8>::empty())));
                    assert(pairs_view(pairs@) =~= prev + seq![(Seq::<u8>::empty(), Seq::<u8>::empty())]);
                }
            } else {
                proof {
                    lemma_find_byte_bounds(line@, 58u8, 0);
                }
                let k = subvec(line.as_slice(), 0, c);
                let tail = subvec(line.as_slice(), c + 1, ll);
                let v = trim_start_vec(tail.as_slice());
                proof {
                    assert(k@ =~= line@.take(c as int));
                    assert(tail@ =~= line@.skip(c + 1));
                    assert(line_entry(line@) == Some((k@, v@)));
                }
                pairs.push((k, v));
                proof {
                    assert(pairs_view(pairs@) =~= prev + seq![(line_entry(line@)->Some_0)]);
                }
            }
        } else {
            proof {
                assert(!starts_drm(line@));
            }
        }
        proof {
            let s = content@;
            let iv = i as int;
            let ev = e as int;
            let rest = parse_pairs(s, ev + 1);
            match line_entry(line@) {
                Some(p) => {
                    assert(parse_pairs(s, iv) == seq![p] + rest);
                    assert(pairs_view(pairs@) == prev + seq![p]);
                }
                None => {
                    assert(parse_pairs(s, iv) == rest);
                }
            }
            if ev >= n {
                assert(parse_pairs(s, n as int) =~= rest);
            }
            assert(pairs_view(pairs@) + (if ev < n { rest } else { parse_pairs(s, n as int) })
                =~= parse_pairs(s, 0));
        }
        i = if e < n {
            e + 1
        } else {
            n
        };
    }
    let r = RawRecord { pairs };
    proof {
        assert(r@ =~= r@ + parse_pairs(content@, n as int));
    }
    r
}

/// Whether a record carries the client-identifier key.
pub open spec fn has_client_id(m: Seq<(Seq<u8>, Seq<u8>)>) -> bool {
    lookup(m, key_client_id()) is Some
}

/// The record's client identifier, its value parsed as an integer; a
/// malformed value counts as identifier zero.
pub open spec fn client_id_of(m: Seq<(Seq<u8>, Seq<u8>)>) -> u64 {
    match lookup(m, key_client_id()) {
        Some(v) => crate::parse::parsed_u64(v),
        None => 0,
    }
}

impl RawRecord {
    /// The record's client identifier, or `None` when the record lacks the
    /// client-identifier key and is to be discarded.
    pub fn client_id(&self) -> (r: Option<u64>)
        ensures
            match r {
                Some(id) => has_client_id(self@) && id == client_id_of(self@),
                None => !has_client_id(self@),
            },
    {
        let key = client_id_key();
        match self.get(key.as_slice()) {
            Some(v) => Some(crate::parse::u64_from_digits(v.as_slice())),
            None => None,
        }
    }
}

} // verus!
