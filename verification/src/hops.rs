//! Cutting a stream into fixed-size hops: samples arrive in blocks of any size and leave in
//! exact hops, so whoever consumes the hops sees the same hops however the stream was split.
use vstd::prelude::*;

verus! {

/// The whole hops of `s`: hop `k` is `s[k * size .. (k + 1) * size]`.
pub open spec fn hops_of<T>(s: Seq<T>, size: nat) -> Seq<Seq<T>>
    recommends
        size > 0,
{
    Seq::new(s.len() / size, |k: int| s.subrange(k * size, k * size + size))
}

/// What is left of `s` after its whole hops.
pub open spec fn remainder_of<T>(s: Seq<T>, size: nat) -> Seq<T>
    recommends
        size > 0,
{
    s.skip(((s.len() / size) * size) as int)
}

/// A buffer that turns blocks of any size into hops of exactly `size` items.
#[derive(Debug, Clone)]
pub struct Hops<T> {
    size: usize,
    pending: Vec<T>,
}

impl<T: Copy> Hops<T> {
    /// Items per hop.
    pub closed spec fn hop_size(&self) -> nat {
        self.size as nat
    }

    /// Items received that do not fill a hop yet.
    pub closed spec fn waiting(&self) -> Seq<T> {
        self.pending@
    }

    /// A hop holds at least one item, and fewer than a hop are waiting.
    pub closed spec fn wf(&self) -> bool {
        self.size > 0 && self.pending@.len() < self.size
    }

    /// A buffer for hops of `size` items, with nothing waiting.
    pub fn new(size: usize) -> (h: Self)
        requires
            size > 0,
        ensures
            h.wf(),
            h.hop_size() == size,
            h.waiting() == Seq::<T>::empty(),
    {
        Hops { size, pending: Vec::new() }
    }

    /// Items per hop.
    pub fn size(&self) -> (n: usize)
        ensures
            n == self.hop_size(),
    {
        self.size
    }

    /// Items waiting for the next hop.
    pub fn waiting_len(&self) -> (n: usize)
        ensures
            n == self.waiting().len(),
    {
        self.pending.len()
    }

    /// Takes `block`; returns the hops it completes, in order. The hops are the whole hops of
    /// what was waiting followed by `block`, and the rest waits.
    pub fn push(&mut self, block: &[T]) -> (done: Vec<Vec<T>>)
        requires
            old(self).wf(),
        ensures
            final(self).wf(),
            final(self).hop_size() == old(self).hop_size(),
            done@.map_values(|h: Vec<T>| h@) == hops_of(old(self).waiting() + block@, old(self).hop_size()),
            final(self).waiting() == remainder_of(old(self).waiting() + block@, old(self).hop_size()),
    {
        let ghost s0 = self.pending@;
        let ghost size: int = self.size as int;
        let mut done: Vec<Vec<T>> = Vec::new();
        let n = block.len();
        let mut i: usize = 0;
        assert(block@.take(0) =~= Seq::<T>::empty());
        assert(s0 + block@.take(0) =~= s0);
        assert(s0.skip(0) =~= s0);
        assert(done@.len() * size == 0) by (nonlinear_arith)
            requires done@.len() == 0;
        while i < n
            invariant
                n == block@.len(),
                0 <= i <= n,
                self.size == size,
                size > 0,
                self.pending@.len() < size,
                ({
                    let s = s0 + block@.take(i as int);
                    &&& done@.len() * size + self.pending@.len() == s.len()
                    &&& forall|k: int| 0 <= k < done@.len() ==> (#[trigger] done@[k])@ == s.subrange(k * size, k * size + size)
                    &&& self.pending@ == s.skip(done@.len() * size)
                }),
            decreases n - i,
        {
            let ghost s = s0 + block@.take(i as int);
            let ghost s1 = s0 + block@.take(i + 1);
            assert(s1 =~= s.push(block@[i as int]));
            let ghost c: int = done@.len() as int;
            proof {
                assert(c * size <= s.len());
                assert forall|k: int| 0 <= k < c implies #[trigger] s1.subrange(k * size, k * size + size) == s.subrange(k * size, k * size + size) by {
                    assert(k * size + size <= c * size) by (nonlinear_arith)
                        requires 0 <= k < c, size > 0;
                    assert(s1.subrange(k * size, k * size + size) =~= s.subrange(k * size, k * size + size));
                }
            }
            self.pending.push(block[i]);
            assert(self.pending@ =~= s1.skip(c * size));
            if self.pending.len() == self.size {
                let mut hop: Vec<T> = Vec::new();
                std::mem::swap(&mut hop, &mut self.pending);
                done.push(hop);
                proof {
                    assert(c * size + size == (c + 1) * size) by (nonlinear_arith);
                    assert(hop@ =~= s1.subrange(c * size, c * size + size));
                    assert(s1.skip((c + 1) * size) =~= Seq::<T>::empty());
                    assert forall|k: int| 0 <= k < done@.len() implies (#[trigger] done@[k])@ == s1.subrange(k * size, k * size + size) by {
                        if k < c {
                        }
                    }
                }
            }
            i = i + 1;
        }
        proof {
            let s = s0 + block@;
            assert(s0 + block@.take(n as int) =~= s);
            let c: int = done@.len() as int;
            vstd::arithmetic::div_mod::lemma_fundamental_div_mod_converse(s.len() as int, size as int, c as int, self.pending@.len() as int);
            assert(done@.map_values(|h: Vec<T>| h@) =~= hops_of(s, size as nat));
        }
        done
    }

    /// Takes what waits for the next hop (the tail of a stream), leaving nothing waiting.
    pub fn take_waiting(&mut self) -> (tail: Vec<T>)
        requires
            old(self).wf(),
        ensures
            final(self).wf(),
            final(self).hop_size() == old(self).hop_size(),
            tail@ == old(self).waiting(),
            final(self).waiting() == Seq::<T>::empty(),
    {
        let mut tail: Vec<T> = Vec::new();
        std::mem::swap(&mut tail, &mut self.pending);
        tail
    }
}

/// Hops do not depend on how the stream was split into blocks: taking `b1` and then `b2` gives
/// the hops, and leaves waiting the rest, that taking them as one block would.
pub proof fn hops_do_not_depend_on_block_sizes<T>(waiting: Seq<T>, b1: Seq<T>, b2: Seq<T>, size: nat)
    requires
        size > 0,
    ensures
        hops_of(waiting + b1, size) + hops_of(remainder_of(waiting + b1, size) + b2, size)
            == hops_of(waiting + b1 + b2, size),
        remainder_of(remainder_of(waiting + b1, size) + b2, size) == remainder_of(waiting + b1 + b2, size),
{
    let x = waiting + b1;
    let y = x + b2;
    assert(waiting + b1 + b2 == y);
    let z: int = size as int;
    let xl: int = x.len() as int;
    let c: int = xl / z;
    vstd::arithmetic::div_mod::lemma_fundamental_div_mod(xl, z);
    assert(c * z <= xl) by (nonlinear_arith)
        requires c == xl / z, z > 0, xl == z * c + xl % z, xl % z >= 0;
    let r = remainder_of(x, size) + b2;
    assert(r =~= y.skip(c * z));
    let rl: int = r.len() as int;
    let d: int = rl / z;
    vstd::arithmetic::div_mod::lemma_fundamental_div_mod(rl, z);
    assert(d * z <= rl) by (nonlinear_arith)
        requires d == rl / z, z > 0, rl == z * d + rl % z, rl % z >= 0;
    let yl: int = y.len() as int;
    assert(yl == c * z + rl);
    assert(yl / z == c + d) by {
        assert(yl == (c + d) * z + rl % z) by (nonlinear_arith)
            requires yl == c * z + rl, rl == z * d + rl % z;
        vstd::arithmetic::div_mod::lemma_fundamental_div_mod_converse(yl, z, c + d, rl % z);
    }
    let lhs = hops_of(x, size) + hops_of(r, size);
    let rhs = hops_of(y, size);
    assert(lhs.len() == rhs.len());
    assert forall|k: int| 0 <= k < c + d implies #[trigger] lhs[k] == rhs[k] by {
        if k < c {
            assert(k * z + z <= c * z) by (nonlinear_arith)
                requires 0 <= k < c, z > 0;
            assert(x.subrange(k * z, k * z + z) =~= y.subrange(k * z, k * z + z));
        } else {
            let j = k - c;
            assert(j * z + z <= d * z) by (nonlinear_arith)
                requires 0 <= j < d, z > 0;
            assert(k * z == c * z + j * z) by (nonlinear_arith)
                requires j == k - c;
            assert(r.subrange(j * z, j * z + z) =~= y.subrange(k * z, k * z + z));
        }
    }
    assert(lhs =~= rhs);
    assert(d * z + c * z == (c + d) * z) by (nonlinear_arith);
    assert(r.skip(d * z) =~= y.skip((c + d) * z));
}

} // verus!
