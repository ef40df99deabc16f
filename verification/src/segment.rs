//! The segmenter: cuts a text into consecutive windows of `target`
//! characters in which each window starts `overlap` characters before the
//! previous one ended, so that neighbouring windows share exactly `overlap`
//! characters; the last window may be shorter. Requiring `overlap < target`
//! guarantees progress.

use vstd::prelude::*;

use crate::text::{chars_of, is_blank, slice_string, str_is_blank};

verus! {

/// The windows produced from position `start` on: each window runs from its
/// start to `start + target` (or the end of the text), and the next window
/// begins `overlap` characters before the previous end.
pub open spec fn windows_from(cs: Seq<char>, start: int, target: int, overlap: int) -> Seq<
    Seq<char>,
>
    decreases cs.len() - start,
        when 0 <= start < cs.len() && 0 <= overlap < target
{
    let end = if start + target <= cs.len() {
        start + target
    } else {
        cs.len() as int
    };
    if end == cs.len() {
        seq![cs.subrange(start, end)]
    } else {
        seq![cs.subrange(start, end)] + windows_from(cs, end - overlap, target, overlap)
    }
}

/// What `segment` returns: nothing for blank input, else the windows from
/// position 0.
pub open spec fn segmented(cs: Seq<char>, target: int, overlap: int) -> Seq<Seq<char>> {
    if is_blank(cs) {
        Seq::empty()
    } else {
        windows_from(cs, 0, target, overlap)
    }
}

/// Splits the text into overlapping windows of `target` characters; blank
/// input yields nothing.
pub fn chunk_text(text: &str, target: usize, overlap: usize) -> (r: Vec<String>)
    requires
        overlap < target,
    ensures
        r.deep_view() == segmented(text@, target as int, overlap as int),
{
    if str_is_blank(text) {
        let r: Vec<String> = Vec::new();
        proof {
            assert(r.deep_view() =~= Seq::<Seq<char>>::empty());
        }
        return r;
    }
    let cs = chars_of(text);
    let mut out: Vec<String> = Vec::new();
    let mut start: usize = 0;
    proof {
        assert(out.deep_view() + windows_from(cs@, 0, target as int, overlap as int)
            =~= windows_from(cs@, 0, target as int, overlap as int));
    }
    loop
        invariant_except_break
            0 <= start < cs@.len(),
            segmented(text@, target as int, overlap as int) == out.deep_view() + windows_from(
                cs@,
                start as int,
                target as int,
                overlap as int,
            ),
        invariant
            cs@ == text@,
            !is_blank(text@),
            overlap < target,
        ensures
            out.deep_view() == segmented(text@, target as int, overlap as int),
        decreases cs@.len() - start,
    {
        let end: usize = if cs.len() - start <= target {
            cs.len()
        } else {
            start + target
        };
        let piece = slice_string(&cs, start, end);
        let ghost old_out = out.deep_view();
        out.push(piece);
        proof {
            assert(out.deep_view() =~= old_out.push(cs@.subrange(start as int, end as int)));
        }
        if end == cs.len() {
            proof {
                assert(old_out + seq![cs@.subrange(start as int, end as int)] =~= out.deep_view());
            }
            break;
        }
        proof {
            assert(old_out + (seq![cs@.subrange(start as int, end as int)] + windows_from(
                cs@,
                end - overlap,
                target as int,
                overlap as int,
            )) =~= out.deep_view() + windows_from(
                cs@,
                end - overlap,
                target as int,
                overlap as int,
            ));
        }
        start = end - overlap;
    }
    out
}

/// The start of the `i`-th window counted from a first window that begins
/// at `base`: each later window starts `overlap` characters before the
/// previous window's end.
pub open spec fn window_start(cs: Seq<char>, target: int, overlap: int, base: int, i: int) -> int
    decreases i, 0int,
{
    if i <= 0 {
        base
    } else {
        window_end(cs, target, overlap, base, i - 1) - overlap
    }
}

/// The end of the `i`-th window: `target` characters past its start, or the
/// end of the text, whichever comes first.
pub open spec fn window_end(cs: Seq<char>, target: int, overlap: int, base: int, i: int) -> int
    decreases i, 1int,
{
    if window_start(cs, target, overlap, base, i) + target <= cs.len() {
        window_start(cs, target, overlap, base, i) + target
    } else {
        cs.len() as int
    }
}

/// Window `i + 1` counted from `base` is window `i` counted from the base
/// that follows the first window.
proof fn lemma_window_shift(cs: Seq<char>, target: int, overlap: int, base: int, i: int)
    requires
        0 <= i,
    ensures
        window_start(cs, target, overlap, base, i + 1) == window_start(
            cs,
            target,
            overlap,
            window_end(cs, target, overlap, base, 0) - overlap,
            i,
        ),
        window_end(cs, target, overlap, base, i + 1) == window_end(
            cs,
            target,
            overlap,
            window_end(cs, target, overlap, base, 0) - overlap,
            i,
        ),
    decreases i,
{
    if i > 0 {
        lemma_window_shift(cs, target, overlap, base, i - 1);
    }
}

/// Every window produced from `base` on is the exact slice of the text
/// between the window boundaries; the boundaries grow, stay inside the
/// text, and the last window ends exactly at the end of the text.
proof fn lemma_windows_from_boundaries(cs: Seq<char>, target: int, overlap: int, base: int)
    requires
        0 <= overlap < target,
        0 <= base < cs.len(),
    ensures
        ({
            let ws = windows_from(cs, base, target, overlap);
            &&& ws.len() >= 1
            &&& forall|i: int|
                0 <= i < ws.len() ==> #[trigger] ws[i] == cs.subrange(
                    window_start(cs, target, overlap, base, i),
                    window_end(cs, target, overlap, base, i),
                )
            &&& forall|i: int|
                0 <= i < ws.len() ==> base <= #[trigger] window_start(cs, target, overlap, base, i)
                    < window_end(cs, target, overlap, base, i) <= cs.len()
            &&& window_end(cs, target, overlap, base, ws.len() - 1) == cs.len()
        }),
    decreases cs.len() - base,
{
    let ws = windows_from(cs, base, target, overlap);
    let end = if base + target <= cs.len() {
        base + target
    } else {
        cs.len() as int
    };
    assert(window_start(cs, target, overlap, base, 0) == base);
    assert(window_end(cs, target, overlap, base, 0) == end);
    if end == cs.len() {
        assert(ws =~= seq![cs.subrange(base, end)]);
        assert forall|i: int|
            #![trigger ws[i]]
            #![trigger window_start(cs, target, overlap, base, i)]
            0 <= i < ws.len() implies ws[i] == cs.subrange(
            window_start(cs, target, overlap, base, i),
            window_end(cs, target, overlap, base, i),
        ) && base <= window_start(cs, target, overlap, base, i) < window_end(
            cs,
            target,
            overlap,
            base,
            i,
        ) <= cs.len() by {
            assert(i == 0);
        }
    } else {
        let base2 = end - overlap;
        lemma_windows_from_boundaries(cs, target, overlap, base2);
        let ws2 = windows_from(cs, base2, target, overlap);
        assert(ws =~= seq![cs.subrange(base, end)] + ws2);
        assert forall|i: int|
            #![trigger ws[i]]
            #![trigger window_start(cs, target, overlap, base, i)]
            0 <= i < ws.len() implies ws[i] == cs.subrange(
            window_start(cs, target, overlap, base, i),
            window_end(cs, target, overlap, base, i),
        ) && base <= window_start(cs, target, overlap, base, i) < window_end(
            cs,
            target,
            overlap,
            base,
            i,
        ) <= cs.len() by {
            if i >= 1 {
                lemma_window_shift(cs, target, overlap, base, i - 1);
                assert(ws[i] == ws2[i - 1]);
                assert(ws2[i - 1] == cs.subrange(
                    window_start(cs, target, overlap, base2, i - 1),
                    window_end(cs, target, overlap, base2, i - 1),
                ));
            }
        }
        lemma_window_shift(cs, target, overlap, base, ws.len() - 2);
        assert(window_end(cs, target, overlap, base, ws.len() - 1) == window_end(
            cs,
            target,
            overlap,
            base2,
            ws2.len() - 1,
        ));
    }
}

/// Every position of the text below the end of window `k` lies inside some
/// window no later than `k`.
proof fn lemma_covered_upto(cs: Seq<char>, target: int, overlap: int, k: int, j: int)
    requires
        0 <= overlap < target,
        0 <= k,
        0 <= j < window_end(cs, target, overlap, 0, k),
    ensures
        exists|i: int|
            0 <= i <= k && #[trigger] window_start(cs, target, overlap, 0, i) <= j < window_end(
                cs,
                target,
                overlap,
                0,
                i,
            ),
    decreases k,
{
    if window_start(cs, target, overlap, 0, k) <= j {
        assert(window_start(cs, target, overlap, 0, k) <= j < window_end(
            cs,
            target,
            overlap,
            0,
            k,
        ));
    } else {
        assert(k > 0);
        assert(window_start(cs, target, overlap, 0, k) == window_end(cs, target, overlap, 0, k - 1)
            - overlap);
        lemma_covered_upto(cs, target, overlap, k - 1, j);
    }
}

/// Law: for non-blank text and `overlap < target`, the windows of
/// `segment` cover the text exactly. The first window starts at position 0,
/// the last ends at the end of the text, every window is the exact slice of
/// the text between its boundaries, every position of the text lies in some
/// window, and each window after the first starts exactly `overlap`
/// characters before the previous window's end — so consecutive windows
/// share exactly `overlap` characters, and only the final window may be
/// shorter than `target`.
pub proof fn lemma_segment_coverage(cs: Seq<char>, target: int, overlap: int)
    requires
        0 <= overlap < target,
        !is_blank(cs),
    ensures
        ({
            let ws = segmented(cs, target, overlap);
            &&& ws.len() >= 1
            &&& window_start(cs, target, overlap, 0, 0) == 0
            &&& forall|i: int|
                0 <= i < ws.len() ==> #[trigger] ws[i] == cs.subrange(
                    window_start(cs, target, overlap, 0, i),
                    window_end(cs, target, overlap, 0, i),
                )
            &&& forall|i: int|
                0 <= i < ws.len() ==> 0 <= #[trigger] window_start(cs, target, overlap, 0, i)
                    < window_end(cs, target, overlap, 0, i) <= cs.len()
            &&& forall|i: int|
                1 <= i < ws.len() ==> #[trigger] window_start(cs, target, overlap, 0, i)
                    == window_end(cs, target, overlap, 0, i - 1) - overlap
            &&& window_end(cs, target, overlap, 0, ws.len() - 1) == cs.len()
        }),
{
    if cs.len() == 0 {
        assert(is_blank(cs));
    }
    lemma_windows_from_boundaries(cs, target, overlap, 0);
}

/// Law: every position of a non-blank text lies inside at least one of the
/// windows of `segment` — together with `lemma_segment_coverage` this says
/// the windows cover the text exactly.
pub proof fn lemma_segment_position_covered(cs: Seq<char>, target: int, overlap: int, j: int)
    requires
        0 <= overlap < target,
        !is_blank(cs),
        0 <= j < cs.len(),
    ensures
        exists|i: int|
            0 <= i < segmented(cs, target, overlap).len() && #[trigger] window_start(
                cs,
                target,
                overlap,
                0,
                i,
            ) <= j < window_end(cs, target, overlap, 0, i),
{
    if cs.len() == 0 {
        assert(is_blank(cs));
    }
    let ws = segmented(cs, target, overlap);
    lemma_windows_from_boundaries(cs, target, overlap, 0);
    lemma_covered_upto(cs, target, overlap, ws.len() - 1, j);
    let i0 = choose|i: int|
        0 <= i <= ws.len() - 1 && #[trigger] window_start(cs, target, overlap, 0, i) <= j
            < window_end(cs, target, overlap, 0, i);
    assert(0 <= i0 < segmented(cs, target, overlap).len() && window_start(
        cs,
        target,
        overlap,
        0,
        i0,
    ) <= j < window_end(cs, target, overlap, 0, i0));
}

} // verus!
