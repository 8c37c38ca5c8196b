//! The segment model: the addressing context that pointers are resolved
//! against.
//!
//! A message owns an ordered sequence of segments, each a contiguous run of
//! 64-bit words. Segment 0 holds the root record, and its first word is a
//! header recording only the root record's length in words; every other
//! segment is a dense word array addressed purely by pointers into it.
//!
//! Addressing is forward-only: a pointer's segment ID offset names a segment
//! at a strictly greater or equal index, never an earlier one, which keeps
//! segment layout single-pass and non-cyclic during encoding.
//!
//! During encoding, values are appended to the current segment until a
//! caller-provided maximum segment size would be exceeded; then a new
//! segment is opened and filling continues there. Once a value starts in a
//! segment it is never split across segments.

use vstd::prelude::*;

use crate::error::WireError;
use crate::pointer::Pointer;

verus! {

/// One message's ordered sequence of segments.
pub struct Message {
    /// The segments, each a contiguous run of 64-bit words.
    pub segments: Vec<Vec<u64>>,
}

impl Message {
    /// Builds a message whose segment 0 holds the root record: the header
    /// word with the record's length in words, then the record's words.
    pub fn new_with_root(root: &Vec<u64>) -> (m: Message)
        ensures
            m.segments@.len() == 1,
            m.segments@[0]@ == seq![root@.len() as u64] + root@,
    {
        let mut first: Vec<u64> = Vec::new();
        first.push(root.len() as u64);
        let mut i: usize = 0;
        while i < root.len()
            invariant
                i <= root@.len(),
                first@ == seq![root@.len() as u64] + root@.take(i as int),
            decreases root@.len() - i,
        {
            first.push(root[i]);
            proof {
                assert(root@.take(i + 1) =~= root@.take(i as int).push(root@[i as int]));
            }
            i += 1;
        }
        proof {
            assert(root@.take(root@.len() as int) =~= root@);
        }
        let mut segments: Vec<Vec<u64>> = Vec::new();
        segments.push(first);
        Message { segments }
    }

    /// Resolves a pointer against a current segment index into the absolute
    /// target location: the segment `ptr.segment_id_offset` past the current
    /// one, at the pointer's word index. Fails with `SegmentOutOfRange` when
    /// the target segment index has no corresponding segment, the current
    /// index included.
    pub fn resolve(&self, current_segment: usize, ptr: &Pointer) -> (r: Result<
        (usize, u32),
        WireError,
    >)
        ensures
            current_segment + ptr.segment_id_offset < self.segments@.len() ==> r == Ok::<
                (usize, u32),
                WireError,
            >(((current_segment + ptr.segment_id_offset) as usize, ptr.word_index)),
            current_segment + ptr.segment_id_offset >= self.segments@.len() ==> r == Err::<
                (usize, u32),
                WireError,
            >(WireError::SegmentOutOfRange),
    {
        let count: usize = self.segments.len();
        if current_segment >= count {
            return Err(WireError::SegmentOutOfRange);
        }
        let offset: usize = ptr.segment_id_offset as usize;
        if offset > count - 1 - current_segment {
            return Err(WireError::SegmentOutOfRange);
        }
        Ok((current_segment + offset, ptr.word_index))
    }

    /// Places a value's words whole into the message: appended to the last
    /// segment when they fit under the segment size cap, else into a freshly
    /// opened segment. Never splits a value across segments. Returns the
    /// target segment's index and the word offset the value starts at.
    pub fn append_value(&mut self, max_segment_words: usize, value: &Vec<u64>) -> (r: (
        usize,
        usize,
    ))
        requires
            value@.len() <= max_segment_words,
            old(self).segments@.len() > 0,
        ensures
            final(self).segments@.len() >= 1,
            r.0 < final(self).segments@.len(),
            ({
                let segs = old(self).segments@;
                let fits = segs.last()@.len() + value@.len() <= max_segment_words;
                if fits {
                    &&& final(self).segments@.len() == segs.len()
                    &&& forall|j: int|
                        0 <= j < segs.len() - 1 ==> #[trigger] final(self).segments@[j]@
                            == segs[j]@
                    &&& final(self).segments@.last()@ == segs.last()@ + value@
                    &&& r == ((segs.len() - 1) as usize, segs.last()@.len() as usize)
                } else {
                    &&& final(self).segments@.len() == segs.len() + 1
                    &&& forall|j: int|
                        0 <= j < segs.len() ==> #[trigger] final(self).segments@[j]@ == segs[j]@
                    &&& final(self).segments@.last()@ == value@
                    &&& r == (segs.len() as usize, 0usize)
                }
            }),
    {
        let n: usize = self.segments.len();
        let last_len: usize = self.segments[n - 1].len();
        if last_len <= max_segment_words && value.len() <= max_segment_words - last_len {
            // The value fits in the current segment under the cap.
            let mut seg: Vec<u64> = match self.segments.pop() {
                Some(s) => s,
                None => {
                    proof {
                        assert(false);
                    }
                    Vec::new()
                },
            };
            let mut i: usize = 0;
            while i < value.len()
                invariant
                    i <= value@.len(),
                    seg@ == old(self).segments@.last()@ + value@.take(i as int),
                decreases value@.len() - i,
            {
                seg.push(value[i]);
                proof {
                    assert(value@.take(i + 1) =~= value@.take(i as int).push(value@[i as int]));
                }
                i += 1;
            }
            proof {
                assert(value@.take(value@.len() as int) =~= value@);
            }
            self.segments.push(seg);
            (n - 1, last_len)
        } else {
            // Open a new segment and place the value at its start.
            let mut seg: Vec<u64> = Vec::new();
            let mut i: usize = 0;
            while i < value.len()
                invariant
                    i <= value@.len(),
                    seg@ == value@.take(i as int),
                decreases value@.len() - i,
            {
                seg.push(value[i]);
                proof {
                    assert(value@.take(i + 1) =~= value@.take(i as int).push(value@[i as int]));
                }
                i += 1;
            }
            proof {
                assert(value@.take(value@.len() as int) =~= value@);
            }
            self.segments.push(seg);
            (n, 0)
        }
    }
}

} // verus!
