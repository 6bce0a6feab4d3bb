use crate::pool::{lemma_perm_in_range, Pool};
use vstd::arithmetic::div_mod::{lemma_div_is_ordered, lemma_div_multiples_vanish};
use vstd::arithmetic::mul::lemma_mul_inequality;
use vstd::prelude::*;

verus! {

/// One vertical bar of the rendered frame, in pixels: `x` is the left
/// edge of its slot, `width` the slot width, `height` proportional to
/// the magnitude on display.
#[derive(Clone, Copy, Debug, PartialEq, Eq, Structural)]
pub struct Bar {
    pub x: u32,
    pub width: u32,
    pub height: u32,
}

/// The bar for the element of magnitude `value` at slot `i` of `n`,
/// across a viewport `vw` pixels wide and `vh` pixels high: each slot is
/// `vw / n` wide, and the bar's height grows in proportion to its
/// magnitude, the largest magnitude `n` reaching the full height `vh`.
pub open spec fn bar_spec(i: int, n: int, value: u16, vw: u32, vh: u32) -> Bar {
    Bar {
        x: (i * vw / n) as u32,
        width: (vw as int / n) as u32,
        height: (value * vh / n) as u32,
    }
}

/// Map the pool to its display frame: one bar per element, left to
/// right, heights encoding the values. Purely derived; never stored.
pub fn frame_bars(pool: &Pool, vw: u32, vh: u32) -> (bars: Vec<Bar>)
    requires
        pool.wf(),
    ensures
        bars@.len() == pool@.len(),
        forall|j: int|
            0 <= j < pool@.len() ==> bars@[j] == bar_spec(
                j,
                pool@.len() as int,
                pool@[j],
                vw,
                vh,
            ),
{
    proof {
        lemma_perm_in_range(pool@);
    }
    let n = pool.len();
    let mut bars: Vec<Bar> = Vec::new();
    let mut i: usize = 0;
    while i < n
        invariant
            pool.wf(),
            n == pool@.len(),
            i <= n,
            bars@.len() == i,
            forall|j: int| 0 <= j < n ==> 1 <= #[trigger] pool@[j] <= n,
            forall|j: int|
                0 <= j < i ==> bars@[j] == bar_spec(j, n as int, pool@[j], vw, vh),
        decreases n - i,
    {
        let v = pool.value_at(i);
        proof {
            let iv = i as int;
            let nv = n as int;
            let wv = vw as int;
            let hv = vh as int;
            let val = pool@[i as int] as int;
            lemma_mul_inequality(iv, nv, wv);
            lemma_div_is_ordered(iv * wv, nv * wv, nv);
            lemma_div_multiples_vanish(wv, nv);
            lemma_mul_inequality(val, nv, hv);
            lemma_div_is_ordered(val * hv, nv * hv, nv);
            lemma_div_multiples_vanish(hv, nv);
            lemma_div_is_ordered(wv, nv * wv, nv);
            assert(iv * wv <= 65535 * 0xffff_ffffint && val * hv <= 65535 * 0xffff_ffffint)
                by (nonlinear_arith)
                requires
                    0 <= iv <= 65535,
                    0 <= wv <= 0xffff_ffffint,
                    1 <= val <= 65535,
                    0 <= hv <= 0xffff_ffffint,
            ;
        }
        let x64 = (i as u64) * (vw as u64) / (n as u64);
        let w64 = (vw as u64) / (n as u64);
        let h64 = (v as u64) * (vh as u64) / (n as u64);
        bars.push(Bar { x: x64 as u32, width: w64 as u32, height: h64 as u32 });
        i = i + 1;
    }
    bars
}

} // verus!
