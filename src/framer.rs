//! Cutting complete SML transmissions out of a byte stream.

use vstd::prelude::*;
use crate::sml::{byte_at, header_at};

verus! {

/// The escape sequence and end mark `1B 1B 1B 1B 1A` at `i`, with the three
/// trailing bytes of padding count and checksum present.
pub open spec fn end_at(b: Seq<u8>, i: int) -> bool {
    i + 8 <= b.len() && byte_at(b, i, 0x1b) && byte_at(b, i + 1, 0x1b) && byte_at(b, i + 2, 0x1b)
        && byte_at(b, i + 3, 0x1b) && byte_at(b, i + 4, 0x1a)
}

/// `s` is the first position of a start sequence in `b`.
pub open spec fn first_start(b: Seq<u8>, s: int) -> bool {
    0 <= s && header_at(b, s) && forall|j: int| 0 <= j < s ==> !header_at(b, j)
}

/// `b[s..t]` is the first complete frame of `b`: it begins at the first start
/// sequence and ends after the first end sequence that follows it.
pub open spec fn frame_at(b: Seq<u8>, s: int, t: int) -> bool {
    first_start(b, s) && s + 16 <= t && end_at(b, t - 8) && forall|e: int|
        s + 8 <= e < t - 8 ==> !end_at(b, e)
}

/// Whether `b` holds a start sequence.
pub open spec fn has_start(b: Seq<u8>) -> bool {
    exists|j: int| 0 <= j < b.len() && header_at(b, j)
}

/// Above this many bytes without a start sequence, the buffer drops its
/// older half.
pub const SOFT_CAP: usize = 65536;

fn start_exec(b: &[u8], i: usize) -> (r: bool)
    ensures
        r == header_at(b@, i as int),
{
    i < b.len() && b.len() - i >= 8 && b[i] == 0x1b && b[i + 1] == 0x1b && b[i + 2] == 0x1b && b[i + 3]
        == 0x1b && b[i + 4] == 0x01 && b[i + 5] == 0x01 && b[i + 6] == 0x01 && b[i + 7] == 0x01
}

fn end_exec(b: &[u8], i: usize) -> (r: bool)
    ensures
        r == end_at(b@, i as int),
{
    i < b.len() && b.len() - i >= 8 && b[i] == 0x1b && b[i + 1] == 0x1b && b[i + 2] == 0x1b && b[i + 3]
        == 0x1b && b[i + 4] == 0x1a
}

/// The bounds `[s, t)` of the first complete frame in `b`, if there is one.
pub fn find_frame(b: &[u8]) -> (r: Option<(usize, usize)>)
    ensures
        match r {
            Some((s, t)) => frame_at(b@, s as int, t as int),
            None => forall|s: int| #[trigger] first_start(b@, s) ==> forall|e: int|
                s + 8 <= e ==> !end_at(b@, e),
        },
{
    let mut s: usize = 0;
    while s < b.len() && !start_exec(b, s)
        invariant
            s <= b@.len(),
            forall|j: int| 0 <= j < s ==> !header_at(b@, j),
        decreases b@.len() - s,
    {
        s = s + 1;
    }
    if s >= b.len() {
        assert forall|s2: int| #[trigger] first_start(b@, s2) implies forall|e: int|
            s2 + 8 <= e ==> !end_at(b@, e) by {
            if s2 >= b@.len() {
                assert(!header_at(b@, s2));
            }
        }
        return None;
    }
    assert(first_start(b@, s as int));
    let mut e: usize = s + 8;
    while e < b.len() && !end_exec(b, e)
        invariant
            s + 8 <= e,
            e <= b@.len() || e == s + 8,
            forall|k: int| s + 8 <= k < e ==> !end_at(b@, k),
        decreases b@.len() - e,
    {
        e = e + 1;
    }
    if e >= b.len() {
        assert forall|s2: int| #[trigger] first_start(b@, s2) implies forall|k: int|
            s2 + 8 <= k ==> !end_at(b@, k) by {
            assert(s2 == s) by {
                if s2 < s {
                    assert(!header_at(b@, s2));
                } else if s2 > s {
                    assert(!header_at(b@, s as int));
                }
            }
            assert forall|k: int| s2 + 8 <= k implies !end_at(b@, k) by {
                if k >= e {
                    assert(k + 8 > b@.len());
                }
            }
        }
        return None;
    }
    Some((s, e + 8))
}

/// A rolling buffer of received bytes.
pub struct FrameBuffer {
    buf: Vec<u8>,
}

impl View for FrameBuffer {
    type V = Seq<u8>;

    closed spec fn view(&self) -> Seq<u8> {
        self.buf@
    }
}

impl FrameBuffer {
    pub fn new() -> (r: FrameBuffer)
        ensures
            r@ == Seq::<u8>::empty(),
    {
        FrameBuffer { buf: Vec::new() }
    }

    /// The number of bytes held.
    pub fn len(&self) -> (r: usize)
        ensures
            r == self@.len(),
    {
        self.buf.len()
    }

    /// Appends received bytes.
    pub fn push(&mut self, chunk: &[u8])
        ensures
            final(self)@ == old(self)@ + chunk@,
    {
        let mut i: usize = 0;
        let ghost start = self.buf@;
        while i < chunk.len()
            invariant
                i <= chunk@.len(),
                self.buf@ == start + chunk@.subrange(0, i as int),
            decreases chunk@.len() - i,
        {
            self.buf.push(chunk[i]);
            i = i + 1;
            assert(self.buf@ =~= start + chunk@.subrange(0, i as int));
        }
        assert(chunk@.subrange(0, i as int) =~= chunk@);
    }

    /// Takes the first complete frame, start and end sequences included, and
    /// drops everything before its end. Without one, keeps the bytes, but
    /// drops the older half of them when they hold no start sequence and
    /// reach the soft cap.
    pub fn next_frame(&mut self) -> (r: Option<Vec<u8>>)
        ensures
            match r {
                Some(f) => exists|s: int, t: int|
                    #[trigger] frame_at(old(self)@, s, t) && f@ == old(self)@.subrange(s, t) && final(self)@
                        == old(self)@.subrange(t, old(self)@.len() as int),
                None => (forall|s: int| #[trigger] first_start(old(self)@, s) ==> forall|e: int|
                    s + 8 <= e ==> !end_at(old(self)@, e)) && final(self)@ == if !has_start(old(self)@)
                    && old(self)@.len() >= SOFT_CAP {
                    old(self)@.subrange(old(self)@.len() as int / 2, old(self)@.len() as int)
                } else {
                    old(self)@
                },
            },
    {
        let ghost b = self.buf@;
        match find_frame(self.buf.as_slice()) {
            Some((s, t)) => {
                let frame = copy_range(&self.buf, s, t);
                let rest = copy_range(&self.buf, t, self.buf.len());
                self.buf = rest;
                assert(b == old(self)@);
                assert(frame_at(b, s as int, t as int) && frame@ == b.subrange(s as int, t as int)
                    && self@ == b.subrange(t as int, b.len() as int));
                Some(frame)
            },
            None => {
                let len = self.buf.len();
                if len >= SOFT_CAP && !self.any_start() {
                    self.buf = copy_range(&self.buf, len / 2, len);
                }
                None
            },
        }
    }

    fn any_start(&self) -> (r: bool)
        ensures
            r == has_start(self@),
    {
        let mut i: usize = 0;
        while i < self.buf.len()
            invariant
                i <= self.buf@.len(),
                forall|j: int| 0 <= j < i ==> !header_at(self.buf@, j),
            decreases self.buf@.len() - i,
        {
            if start_exec(self.buf.as_slice(), i) {
                return true;
            }
            i = i + 1;
        }
        false
    }
}

fn copy_range(v: &Vec<u8>, from: usize, to: usize) -> (r: Vec<u8>)
    requires
        from <= to <= v@.len(),
    ensures
        r@ == v@.subrange(from as int, to as int),
{
    let mut r: Vec<u8> = Vec::new();
    let mut i: usize = from;
    while i < to
        invariant
            from <= i <= to <= v@.len(),
            r@ == v@.subrange(from as int, i as int),
        decreases to - i,
    {
        r.push(v[i]);
        i = i + 1;
        assert(r@ =~= v@.subrange(from as int, i as int));
    }
    r
}

} // verus!
