//! Version tokens: `major[.minor[.patch]][+build]`, compared numerically per
//! component. The optional `+build` tail is kept in the token but carries no
//! numeric weight. A query token matches a version whose components it is a
//! prefix of, so `11` matches `11.0.2` but not `17.0.1`.

use vstd::prelude::*;
use crate::text::{spec_split, spec_parse_u64, split_bytes, parse_u64};

verus! {

pub const DOT: u8 = 46;

pub const PLUS: u8 = 43;

/// The numeric values of a sequence of component tokens, or `None` if any
/// token is not a plain decimal number that fits a `u64`.
pub open spec fn spec_components(pieces: Seq<Seq<u8>>, i: int) -> Option<Seq<u64>>
    decreases pieces.len() - i,
{
    if i >= pieces.len() {
        Some(Seq::empty())
    } else {
        match spec_parse_u64(pieces[i]) {
            Option::None => Option::None,
            Option::Some(v) => match spec_components(pieces, i + 1) {
                Option::None => Option::None,
                Option::Some(rest) => Some(seq![v] + rest),
            },
        }
    }
}

/// The numeric components of a version token: everything before the first
/// `+` is split on dots, and every piece must be a decimal number.
pub open spec fn spec_version_parts(s: Seq<u8>) -> Option<Seq<u64>> {
    spec_components(spec_split(spec_split(s, PLUS)[0], DOT), 0)
}

/// Whether the parsed query components `q` select a version with components
/// `v`: the query must be a componentwise prefix.
pub open spec fn components_match(q: Seq<u64>, v: Seq<u64>) -> bool {
    q.len() <= v.len() && q == v.take(q.len() as int)
}

/// Parses a version token into its numeric components.
pub fn parse_version(s: &Vec<u8>) -> (r: Option<Vec<u64>>)
    ensures
        r.deep_view() == spec_version_parts(s@),
{
    let plus_pieces = split_bytes(s, PLUS);
    let pieces = split_bytes(&plus_pieces[0], DOT);
    proof {
        crate::text::lemma_split_nonempty(s@, PLUS);
        assert(plus_pieces@[0]@ =~= plus_pieces.deep_view()[0]);
    }
    let ghost pv = pieces.deep_view();
    let mut out: Vec<u64> = Vec::new();
    proof {
        if let Some(rest) = spec_components(pv, 0) {
            assert(out@ + rest =~= rest);
        }
    }
    let mut i: usize = 0;
    while i < pieces.len()
        invariant
            0 <= i <= pieces.len(),
            pv == pieces.deep_view(),
            pv == spec_split(spec_split(s@, PLUS)[0], DOT),
            spec_components(pv, 0) == match spec_components(pv, i as int) {
                Option::None => Option::None::<Seq<u64>>,
                Option::Some(rest) => Some(out@ + rest),
            },
        decreases pieces.len() - i,
    {
        proof {
            assert(pv[i as int] == pieces@[i as int]@);
        }
        match parse_u64(&pieces[i]) {
            Option::None => {
                return None;
            },
            Option::Some(v) => {
                out.push(v);
                proof {
                    if let Some(rest) = spec_components(pv, i + 1) {
                        assert(out@ + rest =~= out@.drop_last() + (seq![v] + rest));
                    }
                }
            },
        }
        i = i + 1;
    }
    proof {
        assert(spec_components(pv, pieces.len() as int) == Some(Seq::<u64>::empty()));
        assert(out@ + Seq::<u64>::empty() =~= out@);
    }
    Some(out)
}

/// Whether `q` is a componentwise prefix of `v`.
pub fn is_component_prefix(q: &Vec<u64>, v: &Vec<u64>) -> (r: bool)
    ensures
        r == components_match(q@, v@),
{
    if q.len() > v.len() {
        return false;
    }
    let mut i: usize = 0;
    while i < q.len()
        invariant
            0 <= i <= q.len() <= v.len(),
            forall|k: int| 0 <= k < i ==> q@[k] == v@[k],
        decreases q.len() - i,
    {
        if q[i] != v[i] {
            proof {
                assert(q@[i as int] != v@.take(q@.len() as int)[i as int]);
            }
            return false;
        }
        i = i + 1;
    }
    proof {
        assert(q@ =~= v@.take(q@.len() as int));
    }
    true
}

} // verus!
