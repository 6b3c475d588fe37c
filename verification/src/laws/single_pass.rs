//! Laws on the filter graph that cuts a recording in one pass.
use vstd::prelude::*;
use crate::double::Double;
use crate::single_pass::{
    all_cuts, audio_part, build_filter_complex, cuts_before, inputs, outlets, parts, video_part,
    Cut, Mark, SilenceSpan,
};
use crate::text::{decimal, joined};

verus! {

/// Where stretch `i` of a recording begins: with the recording, or with the end of a silence.
pub open spec fn begins(silences: Seq<SilenceSpan>, i: int) -> (Double, Seq<char>) {
    if i == 0 {
        (Double { bits: 0 }, "0"@)
    } else {
        (silences[i - 1].end.at, silences[i - 1].end.text@)
    }
}

/// Where stretch `i` of a recording ends: with the start of a silence, or with the recording.
pub open spec fn ends(silences: Seq<SilenceSpan>, total: Mark, i: int) -> (Double, Seq<char>) {
    if i < silences.len() {
        (silences[i].start.at, silences[i].start.text@)
    } else {
        (total.at, total.text@)
    }
}

/// A stretch that ends later than it begins.
pub open spec fn lasts(silences: Seq<SilenceSpan>, total: Mark, i: int) -> bool {
    let a = begins(silences, i).0;
    let b = ends(silences, total, i).0;
    !a.undefined() && !b.undefined() && b.units() > a.units()
}

/// The positions in `at` are those of all stretches that last, each once and in order.
pub open spec fn lasting_stretches(silences: Seq<SilenceSpan>, total: Mark, at: Seq<int>) -> bool {
    &&& forall|k: int| 0 <= k < at.len() ==> 0 <= #[trigger] at[k] <= silences.len()
    &&& forall|k: int, l: int| 0 <= k < l < at.len() ==> #[trigger] at[k] < #[trigger] at[l]
    &&& forall|i: int|
        0 <= i <= silences.len() ==> (#[trigger] at.contains(i) <==> lasts(silences, total, i))
}

/// The filters for the first `n` of the stretches: for each of them that for the picture, if there
/// is one, and that for the sound, from mark to mark, with the number of the stretch as a label.
pub open spec fn marked_cutters(
    silences: Seq<SilenceSpan>,
    total: Mark,
    has_video: bool,
    at: Seq<int>,
    n: int,
) -> Seq<char>
    decreases n,
{
    if n <= 0 {
        Seq::empty()
    } else {
        let k = decimal((n - 1) as nat);
        let start = begins(silences, at[n - 1]).1;
        let end = ends(silences, total, at[n - 1]).1;
        marked_cutters(silences, total, has_video, at, n - 1) + (if has_video {
            "[0:v]trim=start="@ + start + ":end="@ + end + ",setpts=PTS-STARTPTS[v"@ + k + "];"@
        } else {
            Seq::empty()
        }) + ("[0:a]atrim=start="@ + start + ":end="@ + end + ",asetpts=PTS-STARTPTS[a"@ + k
            + "];"@)
    }
}

/// The labels of the first `n` stretches, picture and sound in turn.
pub open spec fn label_pairs(has_video: bool, n: int) -> Seq<char>
    decreases n,
{
    if n <= 0 {
        Seq::empty()
    } else {
        let k = decimal((n - 1) as nat);
        label_pairs(has_video, n - 1) + (if has_video {
            "[v"@ + k + "]"@
        } else {
            Seq::empty()
        }) + ("[a"@ + k + "]"@)
    }
}

/// What brings `n` cut stretches to the output: a copy of one, or several put together.
pub open spec fn outlet(has_video: bool, n: nat) -> Seq<char> {
    if n == 1 {
        if has_video {
            "[v0]copy[v];[a0]copy[a]"@
        } else {
            "[a0]copy[a]"@
        }
    } else {
        label_pairs(has_video, n as int) + "concat=n="@ + decimal(n) + (if has_video {
            ":v=1:a=1[v][a]"@
        } else {
            ":v=0:a=1[a]"@
        })
    }
}

/// The positions of the stretches that are cut, among those before the first `n` silences.
proof fn lemma_cuts_at(silences: Seq<SilenceSpan>, total: Mark, n: int) -> (at: Seq<int>)
    requires
        0 <= n <= silences.len(),
    ensures
        at.len() == cuts_before(silences, n).len(),
        forall|k: int|
            0 <= k < at.len() ==> 0 <= #[trigger] at[k] < n && cuts_before(silences, n)[k] == (Cut {
                start: begins(silences, at[k]).1,
                end: ends(silences, total, at[k]).1,
            }),
        forall|k: int, l: int| 0 <= k < l < at.len() ==> #[trigger] at[k] < #[trigger] at[l],
        forall|i: int|
            0 <= i < n ==> (#[trigger] at.contains(i) <==> lasts(silences, total, i)),
    decreases n,
{
    if n == 0 {
        Seq::empty()
    } else {
        let before = lemma_cuts_at(silences, total, n - 1);
        lemma_next_at(before, n - 1);
        if lasts(silences, total, n - 1) {
            before.push(n - 1)
        } else {
            before
        }
    }
}

proof fn lemma_next_at(at: Seq<int>, n: int)
    requires
        forall|k: int| 0 <= k < at.len() ==> #[trigger] at[k] < n,
    ensures
        !at.contains(n),
        forall|i: int| #[trigger] at.push(n).contains(i) <==> at.contains(i) || i == n,
{
    let next = at.push(n);
    assert forall|i: int| #[trigger] next.contains(i) <==> at.contains(i) || i == n by {
        assert(next[at.len() as int] == n);
        if at.contains(i) {
            let k = choose|k: int| 0 <= k < at.len() && at[k] == i;
            assert(next[k] == i);
        }
    }
}

proof fn lemma_joined_after(list: Seq<Seq<char>>, more: Seq<char>)
    requires
        list.len() > 0,
    ensures
        joined(list.push(more), ";"@) == joined(list, ";"@) + ";"@ + more,
{
    assert(list.push(more).drop_last() =~= list);
}

proof fn lemma_marked_cutters(
    silences: Seq<SilenceSpan>,
    total: Mark,
    has_video: bool,
    at: Seq<int>,
    cuts: Seq<Cut>,
    n: int,
)
    requires
        0 < n <= at.len(),
        cuts.len() == at.len(),
        forall|k: int|
            0 <= k < at.len() ==> #[trigger] cuts[k] == (Cut {
                start: begins(silences, at[k]).1,
                end: ends(silences, total, at[k]).1,
            }),
    ensures
        parts(cuts, n, has_video).len() > 0,
        joined(parts(cuts, n, has_video), ";"@) + ";"@ == marked_cutters(
            silences,
            total,
            has_video,
            at,
            n,
        ),
    decreases n,
{
    reveal_strlit("];");
    reveal_strlit("]");
    reveal_strlit(";");
    assert("]"@ + ";"@ =~= "];"@);
    let i = (n - 1) as nat;
    let cut = cuts[n - 1];
    let before = parts(cuts, n - 1, has_video);
    let earlier = marked_cutters(silences, total, has_video, at, n - 1);
    let sound = audio_part(cut, i);
    let picture = video_part(cut, i);
    assert(marked_cutters(silences, total, has_video, at, n) =~= earlier + (if has_video {
        picture + ";"@
    } else {
        Seq::empty()
    }) + sound + ";"@);
    if n > 1 {
        lemma_marked_cutters(silences, total, has_video, at, cuts, n - 1);
        if has_video {
            lemma_joined_after(before, picture);
            lemma_joined_after(before.push(picture), sound);
        } else {
            lemma_joined_after(before, sound);
        }
    } else {
        assert(earlier.len() == 0);
        if has_video {
            assert(before.push(picture)[0] == picture);
            lemma_joined_after(before.push(picture), sound);
        } else {
            assert(before.push(sound)[0] == sound);
        }
    }
    assert(joined(parts(cuts, n, has_video), ";"@) + ";"@ =~= marked_cutters(
        silences,
        total,
        has_video,
        at,
        n,
    ));
}

proof fn lemma_label_pairs(has_video: bool, n: int)
    ensures
        inputs(n, has_video) == label_pairs(has_video, n),
    decreases n,
{
    if n > 0 {
        lemma_label_pairs(has_video, n - 1);
        reveal_strlit("][a");
        reveal_strlit("]");
        reveal_strlit("[a");
        assert("]"@ + "[a"@ =~= "][a"@);
        assert(inputs(n, has_video) =~= label_pairs(has_video, n));
    }
}

proof fn lemma_outlet(list: Seq<Seq<char>>, has_video: bool, n: nat)
    requires
        list.len() > 0,
    ensures
        joined(list + outlets(n, has_video), ";"@) == joined(list, ";"@) + ";"@ + outlet(
            has_video,
            n,
        ),
{
    let all = list + outlets(n, has_video);
    lemma_label_pairs(has_video, n as int);
    if n == 1 && has_video {
        reveal_strlit("[v0]copy[v];[a0]copy[a]");
        reveal_strlit("[v0]copy[v]");
        reveal_strlit("[a0]copy[a]");
        reveal_strlit(";");
        assert("[v0]copy[v]"@ + ";"@ + "[a0]copy[a]"@ =~= "[v0]copy[v];[a0]copy[a]"@);
        assert(all =~= list.push("[v0]copy[v]"@).push("[a0]copy[a]"@));
        lemma_joined_after(list, "[v0]copy[v]"@);
        lemma_joined_after(list.push("[v0]copy[v]"@), "[a0]copy[a]"@);
        assert(joined(all, ";"@) =~= joined(list, ";"@) + ";"@ + outlet(has_video, n));
    } else {
        let last = outlets(n, has_video)[0];
        assert(all =~= list.push(last));
        lemma_joined_after(list, last);
        assert(last =~= outlet(has_video, n));
    }
}

/// The graph cuts every stretch between the silences that lasts, however long and wherever it is,
/// out of the sound and with a picture out of the picture too, from the mark that it begins at to
/// the mark that it ends at, and brings the stretches to the output in order. A recording of which
/// no stretch lasts is copied.
pub proof fn law_one_pass_cuts_every_stretch(
    silences: &[SilenceSpan],
    total: &Mark,
    has_video: bool,
    graph: String,
)
    requires
        call_ensures(build_filter_complex, (silences, total, has_video), graph),
    ensures
        exists|at: Seq<int>|
            {
                &&& #[trigger] lasting_stretches(silences@, *total, at)
                &&& at.len() == 0 && has_video ==> graph@ == "[0:v]copy[v];[0:a]copy[a]"@
                &&& at.len() == 0 && !has_video ==> graph@ == "[0:a]copy[a]"@
                &&& at.len() > 0 ==> graph@ == marked_cutters(
                    silences@,
                    *total,
                    has_video,
                    at,
                    at.len() as int,
                ) + outlet(has_video, at.len())
            },
{
    let n = silences@.len() as int;
    let before = lemma_cuts_at(silences@, *total, n);
    lemma_next_at(before, n);
    let at = if lasts(silences@, *total, n) {
        before.push(n)
    } else {
        before
    };
    let cuts = all_cuts(silences@, total@);
    assert(lasting_stretches(silences@, *total, at));
    assert(at.len() == cuts.len());
    assert forall|k: int| 0 <= k < at.len() implies #[trigger] cuts[k] == (Cut {
        start: begins(silences@, at[k]).1,
        end: ends(silences@, *total, at[k]).1,
    }) by {
        if k < before.len() {
            assert(before[k] == at[k]);
        }
    }
    if at.len() > 0 {
        lemma_marked_cutters(silences@, *total, has_video, at, cuts, at.len() as int);
        lemma_outlet(parts(cuts, cuts.len() as int, has_video), has_video, cuts.len());
        assert(graph@ =~= marked_cutters(silences@, *total, has_video, at, at.len() as int)
            + outlet(has_video, at.len()));
    }
}

} // verus!
