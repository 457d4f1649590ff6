//! The workload: a text of statements, each ended by a semicolon.

use vstd::prelude::*;

verus! {

/// The bytes of `text` before its first semicolon, or all of them.
pub open spec fn first_segment(text: Seq<u8>) -> Seq<u8>
    decreases text.len(),
{
    if text.len() == 0 || text[0] == 0x3b {
        Seq::empty()
    } else {
        seq![text[0]] + first_segment(text.drop_first())
    }
}

/// A segment without the line feed that it may begin with.
pub open spec fn strip_line_feed(segment: Seq<u8>) -> Seq<u8> {
    if segment.len() > 0 && segment[0] == 0x0a {
        segment.drop_first()
    } else {
        segment
    }
}

/// The statements of a workload: the segments between the semicolons,
/// each without the line feed it may begin with, up to the first segment
/// of at most one byte.
pub open spec fn spec_statements(text: Seq<u8>) -> Seq<Seq<u8>>
    decreases text.len(),
{
    let segment = first_segment(text);
    if segment.len() <= 1 {
        Seq::empty()
    } else if segment.len() < text.len() {
        seq![strip_line_feed(segment)] + spec_statements(
            text.subrange(segment.len() as int + 1, text.len() as int),
        )
    } else {
        seq![strip_line_feed(segment)]
    }
}

/// The first segment is no longer than the text.
pub proof fn lemma_first_segment(text: Seq<u8>)
    ensures
        first_segment(text).len() <= text.len(),
        first_segment(text) == text.subrange(0, first_segment(text).len() as int),
        first_segment(text).len() < text.len() ==> text[first_segment(text).len() as int] == 0x3b,
        forall|i: int| 0 <= i < first_segment(text).len() ==> text[i] != 0x3b,
    decreases text.len(),
{
    if text.len() != 0 && text[0] != 0x3b {
        let rest = text.drop_first();
        lemma_first_segment(rest);
        let seg = first_segment(text);
        assert(seg =~= text.subrange(0, seg.len() as int));
        assert forall|i: int| 0 <= i < seg.len() implies text[i] != 0x3b by {
            if i > 0 {
                assert(rest[i - 1] == text[i]);
            }
        }
    } else {
        assert(first_segment(text) =~= text.subrange(0, 0));
    }
}

/// A run of bytes without semicolon that ends at a semicolon or at the
/// end of the text is the first segment.
pub proof fn lemma_segment_found(text: Seq<u8>, j: int)
    requires
        0 <= j <= text.len(),
        forall|i: int| 0 <= i < j ==> text[i] != 0x3b,
        j < text.len() ==> text[j] == 0x3b,
    ensures
        first_segment(text) == text.subrange(0, j),
    decreases j,
{
    if j == 0 {
        assert(first_segment(text) =~= text.subrange(0, 0));
    } else {
        let rest = text.drop_first();
        assert forall|i: int| 0 <= i < j - 1 implies rest[i] != 0x3b by {
            assert(rest[i] == text[i + 1]);
        }
        lemma_segment_found(rest, j - 1);
        assert(first_segment(text) =~= text.subrange(0, j));
    }
}

/// The statements of the workload `text`.
pub fn load_query_wkld(text: &[u8]) -> (stms: Vec<Vec<u8>>)
    ensures
        stms@.len() == spec_statements(text@).len(),
        forall|i: int| 0 <= i < stms@.len() ==> (#[trigger] stms@[i])@ == spec_statements(text@)[i],
{
    let mut stms: Vec<Vec<u8>> = Vec::new();
    let ghost mut done: Seq<Seq<u8>> = Seq::empty();
    let mut start: usize = 0;
    let n = text.len();
    proof {
        assert(text@.subrange(0, n as int) =~= text@);
        assert(done + spec_statements(text@) =~= spec_statements(text@));
    }
    loop
        invariant_except_break
            start <= n,
            n == text@.len(),
            stms@.len() == done.len(),
            forall|i: int| 0 <= i < stms@.len() ==> (#[trigger] stms@[i])@ == done[i],
            done + spec_statements(text@.subrange(start as int, n as int)) == spec_statements(
                text@,
            ),
        ensures
            stms@.len() == done.len(),
            forall|i: int| 0 <= i < stms@.len() ==> (#[trigger] stms@[i])@ == done[i],
            done == spec_statements(text@),
        decreases n - start,
    {
        let ghost rest = text@.subrange(start as int, n as int);
        let mut end: usize = start;
        while end < n && text[end] != 0x3b
            invariant
                start <= end <= n,
                n == text@.len(),
                forall|i: int| start <= i < end ==> text@[i] != 0x3b,
            decreases n - end,
        {
            end += 1;
        }
        proof {
            assert forall|i: int| 0 <= i < end - start implies rest[i] != 0x3b by {
                assert(rest[i] == text@[start + i]);
            }
            lemma_segment_found(rest, end - start);
            assert(first_segment(rest) =~= text@.subrange(start as int, end as int));
        }
        if end - start <= 1 {
            proof {
                assert(spec_statements(rest) =~= Seq::empty());
                assert(done + Seq::<Seq<u8>>::empty() =~= done);
            }
            break ;
        }
        let first = if text[start] == 0x0a {
            start + 1
        } else {
            start
        };
        let stm = vstd::slice::slice_to_vec(vstd::slice::slice_subrange(text, first, end));
        proof {
            let segment = first_segment(rest);
            assert(segment[0] == text@[start as int]);
            assert(stm@ =~= strip_line_feed(segment));
        }
        let ghost old_done = done;
        stms.push(stm);
        proof {
            done = done.push(stm@);
        }
        if end < n {
            proof {
                let next = text@.subrange(end + 1, n as int);
                assert(rest.subrange((end - start) + 1, rest.len() as int) =~= next);
                assert(spec_statements(rest) == seq![stm@] + spec_statements(next));
                assert(old_done + (seq![stm@] + spec_statements(next)) =~= done + spec_statements(
                    next,
                ));
            }
            start = end + 1;
        } else {
            proof {
                assert(spec_statements(rest) == seq![stm@]);
                assert(old_done + seq![stm@] =~= done);
            }
            break ;
        }
    }
    stms
}

} // verus!
