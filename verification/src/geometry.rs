//! Geometry of the block-level hash tree, in the in-order node
//! numbering that network peers use: a node number's trailing ones
//! give its level, and the pre-order outboard slot of a parent node
//! is computed from its position. Every executable function here
//! mirrors its specification twin step for step; impossible inputs
//! are answered with `None` rather than assumed away.
use vstd::prelude::*;

verus! {

/// Two to the power `e`.
pub open spec fn pow2s(e: nat) -> nat
    decreases e,
{
    if e == 0 {
        1
    } else {
        2 * pow2s((e - 1) as nat)
    }
}

/// The value of the 52nd power of two.
pub(crate) proof fn lemma_pow2s_52()
    ensures
        pow2s(52) == 0x10000000000000,
{
    reveal_with_fuel(pow2s, 53);
}

/// The value of the 64th power of two.
pub(crate) proof fn lemma_pow2s_64()
    ensures
        pow2s(64) == 0x10000000000000000,
{
    reveal_with_fuel(pow2s, 65);
}

/// Powers of two grow with the exponent.
pub(crate) proof fn lemma_pow2s_mono(a: nat, b: nat)
    requires
        a <= b,
    ensures
        pow2s(a) <= pow2s(b),
    decreases b,
{
    if a < b {
        lemma_pow2s_mono(a, (b - 1) as nat);
    }
}

/// Two to the power `e`, executable.
pub(crate) fn pow2(e: u64) -> (r: u64)
    requires
        e <= 52,
    ensures
        r == pow2s(e as nat),
        r >= 1,
    decreases e,
{
    proof {
        lemma_pow2s_mono(e as nat, 52);
        lemma_pow2s_52();
    }
    if e == 0 {
        1
    } else {
        2 * pow2(e - 1)
    }
}

/// Number of one bits.
pub open spec fn popcnt(x: nat) -> nat
    decreases x,
{
    if x == 0 {
        0
    } else {
        x % 2 + popcnt(x / 2)
    }
}

/// Number of one bits, executable.
pub(crate) fn popcount(x: u64) -> (r: u64)
    ensures
        r == popcnt(x as nat),
        r <= x,
    decreases x,
{
    if x == 0 {
        0
    } else {
        x % 2 + popcount(x / 2)
    }
}

/// The level of a node: how many times its number can shed a
/// trailing one.
pub open spec fn unpack_level(s: nat) -> nat
    decreases s,
{
    if s % 2 == 0 {
        0
    } else {
        1 + unpack_level((((s - 1) / 2)) as nat)
    }
}

/// The index of a node among the nodes of its level.
pub open spec fn unpack_index(s: nat) -> nat
    decreases s,
{
    if s % 2 == 0 {
        s / 2
    } else {
        unpack_index((((s - 1) / 2)) as nat)
    }
}

/// A node's span never exceeds the numbers it sits among.
pub(crate) proof fn lemma_unpack_pow2(s: nat)
    ensures
        pow2s(unpack_level(s)) <= s + 1,
    decreases s,
{
    if s % 2 != 0 {
        lemma_unpack_pow2((((s - 1) / 2)) as nat);
    }
}

/// Level and index of a node, executable.
pub(crate) fn unpack(s: u64) -> (r: (u64, u64))
    ensures
        r.0 == unpack_level(s as nat),
        r.1 == unpack_index(s as nat),
        r.0 <= 64,
    decreases s,
{
    proof {
        lemma_unpack_pow2(s as nat);
        if s % 2 != 0 {
            lemma_unpack_pow2(((s - 1) / 2) as nat);
            lemma_pow2s_mono(1, unpack_level(s as nat));
        }
    }
    if s % 2 == 0 {
        (0, s / 2)
    } else {
        let (l, k) = unpack((s - 1) / 2);
        proof {
            lemma_pow2s_64();
            if l >= 64 {
                lemma_pow2s_mono(64, l as nat);
            }
        }
        (l + 1, k)
    }
}

/// The parent of a node: one level up, at half the index. `None`
/// where the step would leave the representable range.
pub open spec fn spec_parent_step(s: u64) -> Option<u64> {
    let l = unpack_level(s as nat);
    if l > 51 {
        None
    } else {
        let span = pow2s(l) as int;
        if (s as int / (2 * span)) % 2 == 0 {
            if s as int + span > u64::MAX as int {
                None
            } else {
                Some((s + span as u64) as u64)
            }
        } else {
            if s as int - span < 0 {
                None
            } else {
                Some((s - span as u64) as u64)
            }
        }
    }
}

/// The parent of a node, executable.
pub(crate) fn parent_step(s: u64) -> (r: Option<u64>)
    ensures
        r == spec_parent_step(s),
{
    let (l, _k) = unpack(s);
    if l > 51 {
        return None;
    }
    proof {
        lemma_unpack_pow2(s as nat);
        lemma_pow2s_mono(l as nat, 52);
        lemma_pow2s_52();
    }
    let span = pow2(l);
    if (s / (2 * span)) % 2 == 0 {
        if s > u64::MAX - span {
            None
        } else {
            Some(s + span)
        }
    } else {
        if s < span {
            None
        } else {
            Some(s - span)
        }
    }
}

/// Climb from a node until an ancestor inside the filled tree is
/// found.
pub open spec fn spec_find_anc(s: u64, filled: u64, fuel: nat) -> Option<u64>
    decreases fuel,
{
    if fuel == 0 {
        None
    } else {
        match spec_parent_step(s) {
            None => None,
            Some(p) => if p < filled {
                Some(p)
            } else {
                spec_find_anc(p, filled, (fuel - 1) as nat)
            },
        }
    }
}

/// Climb to the nearest ancestor in the filled tree, executable.
pub(crate) fn find_anc(s: u64, filled: u64, fuel: u64) -> (r: Option<u64>)
    ensures
        r == spec_find_anc(s, filled, fuel as nat),
    decreases fuel,
{
    if fuel == 0 {
        return None;
    }
    match parent_step(s) {
        None => None,
        Some(p) => if p < filled {
            Some(p)
        } else {
            find_anc(p, filled, fuel - 1)
        },
    }
}

/// Descend along left children until the node is inside the filled
/// tree.
pub open spec fn spec_descend(s: u64, filled: u64, fuel: nat) -> Option<u64>
    decreases fuel,
{
    if s < filled {
        Some(s)
    } else if fuel == 0 {
        None
    } else {
        let l = unpack_level(s as nat);
        if l == 0 || l > 52 {
            None
        } else {
            spec_descend((s as int - pow2s((l - 1) as nat)) as u64, filled, (fuel - 1) as nat)
        }
    }
}

/// Descend into the filled tree, executable.
pub(crate) fn descend(s: u64, filled: u64, fuel: u64) -> (r: Option<u64>)
    ensures
        r == spec_descend(s, filled, fuel as nat),
    decreases fuel,
{
    if s < filled {
        return Some(s);
    }
    if fuel == 0 {
        return None;
    }
    let (l, _k) = unpack(s);
    if l == 0 || l > 52 {
        None
    } else {
        proof {
            lemma_unpack_pow2(s as nat);
            lemma_pow2s_mono((l - 1) as nat, (l as nat - 1) as nat);
            lemma_pow2s_mono((l - 1) as nat, l as nat);
        }
        let half = pow2(l - 1);
        descend(s - half, filled, fuel - 1)
    }
}

/// Count the ancestors of a node that lie inside the filled tree,
/// walking up exactly as the pre-order offset of the outboard layout
/// demands.
pub open spec fn spec_count_anc(s: u64, span: u64, filled: u64, fuel: nat) -> Option<u64>
    decreases fuel,
{
    if fuel == 0 || span == 0 || span > 0x4000000000000000u64 {
        None
    } else {
        let pspan = (2 * span) as u64;
        let p = if (s as int / (pspan as int)) % 2 == 0 {
            s as int + span
        } else {
            s as int - span
        };
        if p < 0 || p > u64::MAX as int {
            None
        } else {
            let c: u64 = if p < filled {
                1
            } else {
                0
            };
            if pspan >= filled {
                Some(c)
            } else {
                match spec_count_anc(p as u64, pspan, filled, (fuel - 1) as nat) {
                    None => None,
                    Some(rest) => if c + rest > u64::MAX as int {
                        None
                    } else {
                        Some((c + rest) as u64)
                    },
                }
            }
        }
    }
}

/// Count in-tree ancestors, executable.
pub(crate) fn count_anc(s: u64, span: u64, filled: u64, fuel: u64) -> (r: Option<u64>)
    ensures
        r == spec_count_anc(s, span, filled, fuel as nat),
    decreases fuel,
{
    if fuel == 0 || span == 0 || span > 0x4000000000000000u64 {
        return None;
    }
    let pspan = 2 * span;
    let p: u64 = if (s / pspan) % 2 == 0 {
        if s > u64::MAX - span {
            return None;
        }
        s + span
    } else {
        if s < span {
            return None;
        }
        s - span
    };
    let c: u64 = if p < filled {
        1
    } else {
        0
    };
    if pspan >= filled {
        Some(c)
    } else {
        match count_anc(p, pspan, filled, fuel - 1) {
            None => None,
            Some(rest) => {
                if rest > u64::MAX - c {
                    None
                } else {
                    Some(c + rest)
                }
            },
        }
    }
}

/// How many levels the root of a tree of `n` leaf pairs has: double
/// from one until `n` is covered.
pub open spec fn spec_root_level(n: u64, p: u64, fuel: nat) -> nat
    decreases fuel,
{
    if fuel == 0 || p >= n {
        0
    } else {
        1 + spec_root_level(n, (2 * p) as u64, (fuel - 1) as nat)
    }
}

/// The root level, executable.
pub(crate) fn root_level(n: u64, p: u64, fuel: u64) -> (r: u64)
    requires
        n <= 0x4000000000000000,
        1 <= p,
    ensures
        r == spec_root_level(n, p, fuel as nat),
        r <= fuel,
    decreases fuel,
{
    if fuel == 0 || p >= n {
        0
    } else {
        1 + root_level(n, 2 * p, fuel - 1)
    }
}

} // verus!
