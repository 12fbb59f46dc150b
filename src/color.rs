//! Handing out colours whose (r, g, b) triples are all different.
use vstd::prelude::*;
use crate::canvas::Color;
use crate::sampling::random_in;

verus! {

/// How many random draws `allocate` makes before it searches in order.
pub const RANDOM_TRIES: u32 = 64;

/// Whether some colour of `used` has the red, green and blue channels of `c`.
pub open spec fn rgb_used(used: Seq<Color>, c: Color) -> bool {
    exists|i: int| 0 <= i < used.len() && used[i].r == c.r && used[i].g == c.g && used[i].b == c.b
}

/// No two colours of `used` share their (r, g, b) triple.
pub open spec fn rgb_distinct(used: Seq<Color>) -> bool {
    forall|i: int, j: int|
        0 <= i < j < used.len() ==> !(used[i].r == used[j].r && used[i].g == used[j].g && used[i].b == used[j].b)
}

/// Whether every (r, g, b) triple is the triple of some colour of `used`.
pub open spec fn all_rgb_used(used: Seq<Color>) -> bool {
    forall|r: u8, g: u8, b: u8| #[trigger] rgb_used(used, Color { r, g, b, a: 255 })
}

/// `c` is an opaque colour whose triple was not in `before`, and `after` is
/// `before` with `c` recorded at its end.
pub open spec fn fresh_color(before: Seq<Color>, after: Seq<Color>, c: Color) -> bool {
    &&& c.a == 255
    &&& !rgb_used(before, c)
    &&& after == before.push(c)
}

/// Hands out opaque colours, never the same (r, g, b) triple twice.
pub struct ColorAllocator {
    used: Vec<Color>,
}

impl ColorAllocator {
    /// The colours handed out so far, oldest first.
    pub closed spec fn view(&self) -> Seq<Color> {
        self.used@
    }

    /// The colours handed out so far are opaque and have distinct triples.
    pub open spec fn wf(&self) -> bool {
        &&& rgb_distinct(self@)
        &&& forall|i: int| 0 <= i < self@.len() ==> (#[trigger] self@[i]).a == 255
    }

    /// An allocator that has handed out nothing.
    pub fn new() -> (s: Self)
        ensures
            s.wf(),
            s@ == Seq::<Color>::empty(),
    {
        ColorAllocator { used: Vec::new() }
    }

    /// Whether the triple of `c` has been handed out.
    pub fn is_used(&self, c: Color) -> (res: bool)
        ensures
            res == rgb_used(self@, c),
    {
        let mut i: usize = 0;
        while i < self.used.len()
            invariant
                0 <= i <= self.used@.len(),
                forall|k: int| 0 <= k < i ==> !(self.used@[k].r == c.r && self.used@[k].g == c.g && self.used@[k].b == c.b),
            decreases self.used@.len() - i,
        {
            let u = self.used[i];
            if u.r == c.r && u.g == c.g && u.b == c.b {
                return true;
            }
            i = i + 1;
        }
        false
    }

    /// Records the opaque colour (r, g, b) and hands it out, unless that triple
    /// was handed out before.
    pub fn try_claim(&mut self, r: u8, g: u8, b: u8) -> (res: Option<Color>)
        requires
            old(self).wf(),
        ensures
            final(self).wf(),
            rgb_used(old(self)@, Color { r, g, b, a: 255 }) ==> res is None && final(self)@ == old(self)@,
            !rgb_used(old(self)@, Color { r, g, b, a: 255 }) ==> res == Some(Color { r, g, b, a: 255 })
                && final(self)@ == old(self)@.push(Color { r, g, b, a: 255 }),
    {
        let c = Color { r, g, b, a: 255 };
        if self.is_used(c) {
            None
        } else {
            self.used.push(c);
            proof {
                assert(self@ == old(self)@.push(c));
                assert forall|i: int, j: int| 0 <= i < j < self@.len() implies
                    !(self@[i].r == self@[j].r && self@[i].g == self@[j].g && self@[i].b == self@[j].b) by {
                    if j == self@.len() - 1 {
                        assert(self@[j] == c);
                        assert(self@[i] == old(self)@[i]);
                    }
                }
            }
            Some(c)
        }
    }

    /// Hands out an opaque colour whose triple was not handed out before, and
    /// records it; it returns `None`, and records nothing, only when every triple
    /// has been handed out.
    ///
    /// It draws random triples and returns the first unused one. So that it ends
    /// even when few or no triples are left, after `RANDOM_TRIES` draws that all
    /// hit used triples it stops resampling and takes the first unused triple in
    /// the order (0, 0, 0), (0, 0, 1), ..., (255, 255, 255) instead.
    pub fn allocate(&mut self) -> (res: Option<Color>)
        requires
            old(self).wf(),
        ensures
            final(self).wf(),
            res is None <==> all_rgb_used(old(self)@),
            res is None ==> final(self)@ == old(self)@,
            res matches Some(c) ==> c.a == 255 && !rgb_used(old(self)@, c) && final(self)@ == old(self)@.push(c),
    {
        let mut tries: u32 = 0;
        while tries < RANDOM_TRIES
            invariant
                self.wf(),
                self@ == old(self)@,
            decreases RANDOM_TRIES - tries,
        {
            let r = random_in(0, 256) as u8;
            let g = random_in(0, 256) as u8;
            let b = random_in(0, 256) as u8;
            let got = self.try_claim(r, g, b);
            if got.is_some() {
                return got;
            }
            tries = tries + 1;
        }
        let mut r: u32 = 0;
        while r < 256
            invariant
                self.wf(),
                self@ == old(self)@,
                forall|r0: u8, g0: u8, b0: u8| r0 < r ==> #[trigger] rgb_used(self@, Color { r: r0, g: g0, b: b0, a: 255 }),
            decreases 256 - r,
        {
            let mut g: u32 = 0;
            while g < 256
                invariant
                    r < 256,
                    self.wf(),
                    self@ == old(self)@,
                    forall|r0: u8, g0: u8, b0: u8| r0 < r ==> #[trigger] rgb_used(self@, Color { r: r0, g: g0, b: b0, a: 255 }),
                    forall|g0: u8, b0: u8| g0 < g ==> #[trigger] rgb_used(self@, Color { r: r as u8, g: g0, b: b0, a: 255 }),
                decreases 256 - g,
            {
                let mut b: u32 = 0;
                while b < 256
                    invariant
                        r < 256,
                        g < 256,
                        self.wf(),
                        self@ == old(self)@,
                        forall|r0: u8, g0: u8, b0: u8| r0 < r ==> #[trigger] rgb_used(self@, Color { r: r0, g: g0, b: b0, a: 255 }),
                        forall|g0: u8, b0: u8| g0 < g ==> #[trigger] rgb_used(self@, Color { r: r as u8, g: g0, b: b0, a: 255 }),
                        forall|b0: u8| b0 < b ==> #[trigger] rgb_used(self@, Color { r: r as u8, g: g as u8, b: b0, a: 255 }),
                    decreases 256 - b,
                {
                    let got = self.try_claim(r as u8, g as u8, b as u8);
                    if got.is_some() {
                        proof {
                            assert(!all_rgb_used(old(self)@));
                        }
                        return got;
                    }
                    b = b + 1;
                }
                g = g + 1;
            }
            r = r + 1;
        }
        proof {
            assert forall|r0: u8, g0: u8, b0: u8| #[trigger] rgb_used(old(self)@, Color { r: r0, g: g0, b: b0, a: 255 }) by {
                assert(r0 < r);
            }
        }
        None
    }
}

/// However many colours an allocator has handed out, no two of them share
/// their (r, g, b) triple: each `allocate` keeps `wf`, and appends the colour it
/// hands out to what was handed out before.
pub proof fn lemma_handed_out_distinct(a: ColorAllocator, i: int, j: int)
    requires
        a.wf(),
        0 <= i < a@.len(),
        0 <= j < a@.len(),
        i != j,
    ensures
        !(a@[i].r == a@[j].r && a@[i].g == a@[j].g && a@[i].b == a@[j].b),
{
    if j < i {
        assert(!(a@[j].r == a@[i].r && a@[j].g == a@[i].g && a@[j].b == a@[i].b));
    }
}

} // verus!
