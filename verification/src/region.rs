//! The region extractor: keeps only the lines strictly between a begin-marker
//! line and the next end-marker line, over any number of such regions.

use vstd::prelude::*;

verus! {

/// The scanner state after one line: outside a region it enters on the begin
/// marker; inside it leaves on the end marker.
pub open spec fn marker_step(inside: bool, line: Seq<char>, begin: Seq<char>, endm: Seq<char>) -> bool {
    if inside {
        line != endm
    } else {
        line == begin
    }
}

/// The lines inside the marker regions of `lines`, in input order, starting
/// from scanner state `inside`. A line equal to the end marker while inside,
/// or any line while outside, is dropped; regions may repeat, and a region
/// still open at end of input is kept as far as it goes.
pub open spec fn region_lines(
    lines: Seq<Seq<char>>,
    begin: Seq<char>,
    endm: Seq<char>,
    inside: bool,
) -> Seq<Seq<char>>
    decreases lines.len(),
{
    if lines.len() == 0 {
        Seq::empty()
    } else {
        let l = lines[0];
        let kept: Seq<Seq<char>> = if inside && l != endm {
            seq![l]
        } else {
            Seq::empty()
        };
        kept + region_lines(lines.skip(1), begin, endm, marker_step(inside, l, begin, endm))
    }
}

/// The scanner state after the first `i` lines, starting from `inside`.
pub open spec fn state_at(
    lines: Seq<Seq<char>>,
    begin: Seq<char>,
    endm: Seq<char>,
    inside: bool,
    i: int,
) -> bool
    decreases i,
{
    if i <= 0 {
        inside
    } else {
        state_at(
            lines.skip(1),
            begin,
            endm,
            marker_step(inside, lines[0], begin, endm),
            i - 1,
        )
    }
}

/// Region isolation: every extracted line occurs in the input at a position
/// where the scanner stands inside a region and the line is not the end
/// marker — lines outside the marker regions never reach the output.
pub proof fn lemma_region_isolation(
    lines: Seq<Seq<char>>,
    begin: Seq<char>,
    endm: Seq<char>,
    inside: bool,
)
    ensures
        forall|j: int|
            0 <= j < region_lines(lines, begin, endm, inside).len() ==> exists|i: int|
                0 <= i < lines.len() && lines[i] == #[trigger] region_lines(
                    lines,
                    begin,
                    endm,
                    inside,
                )[j] && state_at(lines, begin, endm, inside, i) && lines[i] != endm,
    decreases lines.len(),
{
    if lines.len() == 0 {
    } else {
        let l = lines[0];
        let step = marker_step(inside, l, begin, endm);
        let rest = lines.skip(1);
        lemma_region_isolation(rest, begin, endm, step);
        let out = region_lines(lines, begin, endm, inside);
        let out_rest = region_lines(rest, begin, endm, step);
        let kept: int = if inside && l != endm {
            1
        } else {
            0
        };
        assert forall|j: int| 0 <= j < out.len() implies exists|i: int|
            0 <= i < lines.len() && lines[i] == #[trigger] out[j] && state_at(
                lines,
                begin,
                endm,
                inside,
                i,
            ) && lines[i] != endm by {
            if j < kept {
                assert(out[j] == l);
                assert(state_at(lines, begin, endm, inside, 0) == inside);
                assert(lines[0] == out[j] && state_at(lines, begin, endm, inside, 0) && lines[0]
                    != endm);
            } else {
                assert(out[j] == out_rest[j - kept]);
                let i0 = choose|i0: int|
                    0 <= i0 < rest.len() && rest[i0] == out_rest[j - kept] && state_at(
                        rest,
                        begin,
                        endm,
                        step,
                        i0,
                    ) && rest[i0] != endm;
                assert(lines[i0 + 1] == rest[i0]);
                assert(state_at(lines, begin, endm, inside, i0 + 1) == state_at(
                    rest,
                    begin,
                    endm,
                    step,
                    i0,
                ));
                assert(lines[i0 + 1] == out[j] && state_at(lines, begin, endm, inside, i0 + 1)
                    && lines[i0 + 1] != endm);
            }
        }
    }
}

/// The lines between the markers, in input order: the verified counterpart of
/// `region_lines` started outside any region.
pub fn extract_region(lines: &Vec<String>, begin: &str, endm: &str) -> (r: Vec<String>)
    ensures
        r.deep_view() == region_lines(lines.deep_view(), begin@, endm@, false),
{
    let mut out: Vec<String> = Vec::new();
    let mut inside: bool = false;
    let mut i: usize = 0;
    let ghost all = lines.deep_view();
    proof {
        assert(all.skip(0) =~~= all);
        assert(out.deep_view() =~~= Seq::<Seq<char>>::empty());
        assert(out.deep_view() + region_lines(all, begin@, endm@, false) =~~= region_lines(
            all,
            begin@,
            endm@,
            false,
        ));
    }
    while i < lines.len()
        invariant
            all == lines.deep_view(),
            0 <= i <= lines.len(),
            region_lines(all, begin@, endm@, false) == out.deep_view() + region_lines(
                all.skip(i as int),
                begin@,
                endm@,
                inside,
            ),
        decreases lines.len() - i,
    {
        let line = &lines[i];
        proof {
            assert(all.skip(i as int)[0] == all[i as int]);
            assert(all[i as int] == line@);
            assert(all.skip(i as int).skip(1) =~~= all.skip(i as int + 1));
        }
        if !inside {
            if crate::text::str_eq(line.as_str(), begin) {
                inside = true;
            }
            proof {
                assert(out.deep_view() + region_lines(all.skip(i as int), begin@, endm@, false)
                    =~~= out.deep_view() + region_lines(all.skip(i as int + 1), begin@, endm@,
                marker_step(false, line@, begin@, endm@)));
            }
        } else {
            if crate::text::str_eq(line.as_str(), endm) {
                inside = false;
                proof {
                    assert(out.deep_view() + region_lines(all.skip(i as int), begin@, endm@, true)
                        =~~= out.deep_view() + region_lines(all.skip(i as int + 1), begin@, endm@,
                    false));
                }
            } else {
                let kept = line.clone();
                let ghost old_out = out.deep_view();
                out.push(kept);
                proof {
                    assert(out.deep_view() =~~= old_out + seq![line@]);
                    assert(old_out + (seq![line@] + region_lines(
                        all.skip(i as int + 1),
                        begin@,
                        endm@,
                        true,
                    )) =~~= (old_out + seq![line@]) + region_lines(
                        all.skip(i as int + 1),
                        begin@,
                        endm@,
                        true,
                    ));
                }
            }
        }
        i = i + 1;
    }
    proof {
        assert(all.skip(lines.len() as int) =~~= Seq::<Seq<char>>::empty());
        assert(region_lines(all, begin@, endm@, false) =~~= out.deep_view());
    }
    out
}

} // verus!
