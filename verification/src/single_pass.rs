//! Filter graph that cuts a whole recording in one pass.
use vstd::prelude::*;
use vstd::string::StringExecFns;
use crate::double::{zero, Double};
use crate::text::{
    decimal, join, joined, lemma_decimal_digits, push_decimal, push_owned, push_text, texts,
};

verus! {

/// A time together with the text that a filter shows for it.
#[derive(Clone, Debug)]
pub struct Mark {
    pub at: Double,
    pub text: String,
}

/// A silence between two marks.
#[derive(Clone, Debug)]
pub struct SilenceSpan {
    pub start: Mark,
    pub end: Mark,
}

/// What is known of a mark.
pub struct MarkView {
    pub at: Double,
    pub text: Seq<char>,
}

impl View for Mark {
    type V = MarkView;

    open spec fn view(&self) -> MarkView {
        MarkView { at: self.at, text: self.text@ }
    }
}

/// A stretch that is kept, from mark to mark.
pub struct Cut {
    pub start: Seq<char>,
    pub end: Seq<char>,
}

/// Where the stretch before silence `i` begins.
pub open spec fn mark_before(silences: Seq<SilenceSpan>, i: int) -> MarkView {
    if i == 0 {
        MarkView { at: zero(), text: "0"@ }
    } else {
        silences[i - 1].end@
    }
}

/// The stretches before the first `n` silences that are not empty.
pub open spec fn cuts_before(silences: Seq<SilenceSpan>, n: int) -> Seq<Cut>
    decreases n,
{
    if n <= 0 {
        Seq::empty()
    } else {
        let start = mark_before(silences, n - 1);
        let end = silences[n - 1].start@;
        if end.at.exceeds(start.at) {
            cuts_before(silences, n - 1).push(Cut { start: start.text, end: end.text })
        } else {
            cuts_before(silences, n - 1)
        }
    }
}

/// All stretches that are not empty, the one after the last silence included.
pub open spec fn all_cuts(silences: Seq<SilenceSpan>, total: MarkView) -> Seq<Cut> {
    let n = silences.len() as int;
    let start = mark_before(silences, n);
    if total.at.exceeds(start.at) {
        cuts_before(silences, n).push(Cut { start: start.text, end: total.text })
    } else {
        cuts_before(silences, n)
    }
}

/// The filter that cuts stretch `i` out of the picture.
pub open spec fn video_part(cut: Cut, i: nat) -> Seq<char> {
    "[0:v]trim=start="@ + cut.start + ":end="@ + cut.end + ",setpts=PTS-STARTPTS[v"@ + decimal(i)
        + "]"@
}

/// The filter that cuts stretch `i` out of the sound.
pub open spec fn audio_part(cut: Cut, i: nat) -> Seq<char> {
    "[0:a]atrim=start="@ + cut.start + ":end="@ + cut.end + ",asetpts=PTS-STARTPTS[a"@ + decimal(i)
        + "]"@
}

/// The filters that cut out the first `n` stretches.
pub open spec fn parts(cuts: Seq<Cut>, n: int, has_video: bool) -> Seq<Seq<char>>
    decreases n,
{
    if n <= 0 {
        Seq::empty()
    } else {
        let before = parts(cuts, n - 1, has_video);
        let i = (n - 1) as nat;
        if has_video {
            before.push(video_part(cuts[n - 1], i)).push(audio_part(cuts[n - 1], i))
        } else {
            before.push(audio_part(cuts[n - 1], i))
        }
    }
}

/// The labels of the first `n` stretches.
pub open spec fn inputs(n: int, has_video: bool) -> Seq<char>
    decreases n,
{
    if n <= 0 {
        Seq::empty()
    } else {
        let i = decimal((n - 1) as nat);
        inputs(n - 1, has_video) + (if has_video {
            "[v"@ + i + "][a"@ + i + "]"@
        } else {
            "[a"@ + i + "]"@
        })
    }
}

/// The filters that bring the cut stretches to the output labels: a concatenation of several,
/// a copy of a single one.
pub open spec fn outlets(n: nat, has_video: bool) -> Seq<Seq<char>> {
    if n == 1 {
        if has_video {
            seq!["[v0]copy[v]"@, "[a0]copy[a]"@]
        } else {
            seq!["[a0]copy[a]"@]
        }
    } else if has_video {
        seq![inputs(n as int, true) + "concat=n="@ + decimal(n) + ":v=1:a=1[v][a]"@]
    } else {
        seq![inputs(n as int, false) + "concat=n="@ + decimal(n) + ":v=0:a=1[a]"@]
    }
}

/// The whole filter graph; with nothing to cut out, the streams are copied as they are.
pub open spec fn single_pass_filter(cuts: Seq<Cut>, has_video: bool) -> Seq<char> {
    if cuts.len() == 0 {
        if has_video {
            "[0:v]copy[v];[0:a]copy[a]"@
        } else {
            "[0:a]copy[a]"@
        }
    } else {
        joined(
            parts(cuts, cuts.len() as int, has_video) + outlets(cuts.len(), has_video),
            ";"@,
        )
    }
}

fn part_text(head: &str, tail: &str, start: &str, end: &str, i: usize) -> (r: String)
    ensures
        r@ == head@ + start@ + ":end="@ + end@ + tail@ + decimal(i as nat) + "]"@,
{
    let mut out: String = head.to_owned();
    out.append(start);
    out.append(":end=");
    out.append(end);
    out.append(tail);
    push_decimal(&mut out, i as u64);
    out.append("]");
    out
}

fn push_cut(
    filter_parts: &mut Vec<String>,
    concat_inputs: &mut String,
    start: &str,
    end: &str,
    i: usize,
    has_video: bool,
    Ghost(cuts): Ghost<Seq<Cut>>,
)
    requires
        i < cuts.len(),
        cuts[i as int].start == start@,
        cuts[i as int].end == end@,
        texts(old(filter_parts)@) == parts(cuts, i as int, has_video),
        old(concat_inputs)@ == inputs(i as int, has_video),
    ensures
        texts(final(filter_parts)@) == parts(cuts, i + 1, has_video),
        final(concat_inputs)@ == inputs(i + 1, has_video),
{
    if has_video {
        push_owned(
            filter_parts,
            part_text("[0:v]trim=start=", ",setpts=PTS-STARTPTS[v", start, end, i),
        );
    }
    push_owned(
        filter_parts,
        part_text("[0:a]atrim=start=", ",asetpts=PTS-STARTPTS[a", start, end, i),
    );
    if has_video {
        concat_inputs.append("[v");
        push_decimal(concat_inputs, i as u64);
        concat_inputs.append("][a");
    } else {
        concat_inputs.append("[a");
    }
    push_decimal(concat_inputs, i as u64);
    concat_inputs.append("]");
    assert(concat_inputs@ =~= inputs(i + 1, has_video));
}

proof fn lemma_parts_prefix(a: Seq<Cut>, b: Seq<Cut>, n: int, has_video: bool)
    requires
        n <= a.len(),
        n <= b.len(),
        forall|i: int| 0 <= i < n ==> a[i] == b[i],
    ensures
        parts(a, n, has_video) == parts(b, n, has_video),
    decreases n,
{
    if n > 0 {
        lemma_parts_prefix(a, b, n - 1, has_video);
    }
}

/// The filter graph that keeps everything but the silences of a recording that ends at
/// `total_duration`.
pub fn build_filter_complex(
    silences: &[SilenceSpan],
    total_duration: &Mark,
    has_video: bool,
) -> (r: String)
    requires
        silences@.len() < usize::MAX,
    ensures
        r@ == single_pass_filter(all_cuts(silences@, total_duration@), has_video),
{
    let mut filter_parts: Vec<String> = Vec::new();
    let mut concat_inputs: String = String::new();
    let mut last_at: Double = Double { bits: 0 };
    let mut last_text: String = "0".to_owned();
    let mut segment_index: usize = 0;
    let mut i: usize = 0;
    let ghost mut cuts: Seq<Cut> = Seq::empty();
    while i < silences.len()
        invariant
            i <= silences@.len() < usize::MAX,
            cuts == cuts_before(silences@, i as int),
            cuts.len() <= i,
            segment_index == cuts.len(),
            last_at == mark_before(silences@, i as int).at,
            last_text@ == mark_before(silences@, i as int).text,
            texts(filter_parts@) == parts(cuts, cuts.len() as int, has_video),
            concat_inputs@ == inputs(cuts.len() as int, has_video),
        decreases silences@.len() - i,
    {
        let silence: &SilenceSpan = &silences[i];
        if silence.start.at.gt(last_at) {
            let ghost before = cuts;
            proof {
                cuts = cuts.push(Cut { start: last_text@, end: silence.start.text@ });
                lemma_parts_prefix(before, cuts, before.len() as int, has_video);
            }
            push_cut(
                &mut filter_parts,
                &mut concat_inputs,
                last_text.as_str(),
                silence.start.text.as_str(),
                segment_index,
                has_video,
                Ghost(cuts),
            );
            segment_index = segment_index + 1;
        }
        last_at = silence.end.at;
        last_text = silence.end.text.clone();
        i = i + 1;
    }
    if last_at.lt(total_duration.at) {
        let ghost before = cuts;
        proof {
            cuts = cuts.push(Cut { start: last_text@, end: total_duration.text@ });
            lemma_parts_prefix(before, cuts, before.len() as int, has_video);
        }
        push_cut(
            &mut filter_parts,
            &mut concat_inputs,
            last_text.as_str(),
            total_duration.text.as_str(),
            segment_index,
            has_video,
            Ghost(cuts),
        );
        segment_index = segment_index + 1;
    }
    assert(cuts == all_cuts(silences@, total_duration@));
    if segment_index == 0 {
        return if has_video {
            "[0:v]copy[v];[0:a]copy[a]".to_owned()
        } else {
            "[0:a]copy[a]".to_owned()
        };
    }
    let ghost cut_parts = texts(filter_parts@);
    if segment_index > 1 {
        concat_inputs.append("concat=n=");
        push_decimal(&mut concat_inputs, segment_index as u64);
        if has_video {
            concat_inputs.append(":v=1:a=1[v][a]");
        } else {
            concat_inputs.append(":v=0:a=1[a]");
        }
        push_owned(&mut filter_parts, concat_inputs);
    } else if has_video {
        push_text(&mut filter_parts, "[v0]copy[v]");
        push_text(&mut filter_parts, "[a0]copy[a]");
    } else {
        push_text(&mut filter_parts, "[a0]copy[a]");
    }
    assert(texts(filter_parts@) =~= cut_parts + outlets(cuts.len(), has_video));
    join(&filter_parts, ";")
}

/// Picture and sound are cut alike: in the graph with picture, the filter that cuts stretch `i`
/// out of the sound stands directly behind the one that cuts the same stretch out of the picture,
/// and it is filter `i` of the graph without picture.
pub proof fn law_picture_and_sound_are_cut_alike(
    silences: Seq<SilenceSpan>,
    total: MarkView,
    i: int,
)
    requires
        0 <= i < all_cuts(silences, total).len(),
    ensures
        ({
            let cuts = all_cuts(silences, total);
            let n = cuts.len() as int;
            let both = parts(cuts, n, true);
            let sound = parts(cuts, n, false);
            &&& both.len() == 2 * n
            &&& sound.len() == n
            &&& both[2 * i] == video_part(cuts[i], i as nat)
            &&& both[2 * i + 1] == audio_part(cuts[i], i as nat)
            &&& sound[i] == both[2 * i + 1]
        }),
{
    let cuts = all_cuts(silences, total);
    lemma_parts(cuts, cuts.len() as int, i);
}

proof fn lemma_parts(cuts: Seq<Cut>, n: int, i: int)
    requires
        0 <= n <= cuts.len(),
    ensures
        parts(cuts, n, true).len() == 2 * n,
        parts(cuts, n, false).len() == n,
        0 <= i < n ==> parts(cuts, n, true)[2 * i] == video_part(cuts[i], i as nat),
        0 <= i < n ==> parts(cuts, n, true)[2 * i + 1] == audio_part(cuts[i], i as nat),
        0 <= i < n ==> parts(cuts, n, false)[i] == audio_part(cuts[i], i as nat),
    decreases n,
{
    if n > 0 {
        lemma_parts(cuts, n - 1, i);
    }
}

/// Every bracket opens a label of sound: `[a…` or `[0:a…`.
pub open spec fn sound_labels(s: Seq<char>) -> bool {
    forall|k: int|
        0 <= k < s.len() && #[trigger] s[k] == '[' ==> {
            ||| k + 1 < s.len() && s[k + 1] == 'a'
            ||| k + 3 < s.len() && s[k + 1] == '0' && s[k + 2] == ':' && s[k + 3] == 'a'
        }
}

/// No bracket opens in the text, as in that of a number.
pub open spec fn bracket_free(s: Seq<char>) -> bool {
    forall|k: int| 0 <= k < s.len() ==> #[trigger] s[k] != '['
}

/// `part` stands at position `k` of the text.
pub open spec fn stands_at(s: Seq<char>, part: Seq<char>, k: int) -> bool {
    0 <= k <= s.len() - part.len() && s.subrange(k, k + part.len()) == part
}

proof fn lemma_labels_add(a: Seq<char>, b: Seq<char>)
    requires
        sound_labels(a),
        sound_labels(b),
    ensures
        sound_labels(a + b),
{
    let s = a + b;
    assert forall|k: int| 0 <= k < s.len() && #[trigger] s[k] == '[' implies {
        ||| k + 1 < s.len() && s[k + 1] == 'a'
        ||| k + 3 < s.len() && s[k + 1] == '0' && s[k + 2] == ':' && s[k + 3] == 'a'
    } by {
        if k < a.len() {
            assert(a[k] == '[');
        } else {
            assert(b[k - a.len()] == '[');
        }
    }
}

proof fn lemma_labels_number(n: nat)
    ensures
        sound_labels(decimal(n)),
{
    lemma_decimal_digits(n);
}

proof fn lemma_labels_audio_part(cut: Cut, i: nat)
    requires
        bracket_free(cut.start),
        bracket_free(cut.end),
    ensures
        sound_labels(audio_part(cut, i)),
{
    reveal_strlit("[0:a]atrim=start=");
    reveal_strlit(":end=");
    reveal_strlit(",asetpts=PTS-STARTPTS[a");
    reveal_strlit("]");
    lemma_labels_number(i);
    let a = "[0:a]atrim=start="@;
    let c = a + cut.start + ":end="@ + cut.end;
    assert(sound_labels(a));
    lemma_labels_add(a, cut.start);
    lemma_labels_add(a + cut.start, ":end="@);
    lemma_labels_add(a + cut.start + ":end="@, cut.end);
    lemma_labels_add(c, ",asetpts=PTS-STARTPTS[a"@);
    lemma_labels_add(c + ",asetpts=PTS-STARTPTS[a"@, decimal(i));
    lemma_labels_add(c + ",asetpts=PTS-STARTPTS[a"@ + decimal(i), "]"@);
}

proof fn lemma_labels_inputs(n: int)
    ensures
        sound_labels(inputs(n, false)),
    decreases n,
{
    if n > 0 {
        lemma_labels_inputs(n - 1);
        reveal_strlit("[a");
        reveal_strlit("]");
        let i = decimal((n - 1) as nat);
        lemma_labels_number((n - 1) as nat);
        lemma_labels_add("[a"@, i);
        lemma_labels_add("[a"@ + i, "]"@);
        lemma_labels_add(inputs(n - 1, false), "[a"@ + i + "]"@);
    }
}

proof fn lemma_labels_joined(list: Seq<Seq<char>>)
    requires
        forall|i: int| 0 <= i < list.len() ==> sound_labels(#[trigger] list[i]),
    ensures
        sound_labels(joined(list, ";"@)),
    decreases list.len(),
{
    reveal_strlit(";");
    if list.len() > 1 {
        let before = list.drop_last();
        assert forall|i: int| 0 <= i < before.len() implies sound_labels(#[trigger] before[i]) by {
            assert(before[i] == list[i]);
        }
        lemma_labels_joined(before);
        assert(sound_labels(list[list.len() - 1]));
        lemma_labels_add(joined(before, ";"@), ";"@);
        lemma_labels_add(joined(before, ";"@) + ";"@, list.last());
    }
}

proof fn lemma_labels_outlets(n: nat)
    ensures
        outlets(n, false).len() == 1,
        sound_labels(outlets(n, false)[0]),
{
    reveal_strlit("[a0]copy[a]");
    reveal_strlit("concat=n=");
    reveal_strlit(":v=0:a=1[a]");
    if n != 1 {
        let i = inputs(n as int, false);
        lemma_labels_inputs(n as int);
        lemma_labels_number(n);
        lemma_labels_add(i, "concat=n="@);
        lemma_labels_add(i + "concat=n="@, decimal(n));
        lemma_labels_add(i + "concat=n="@ + decimal(n), ":v=0:a=1[a]"@);
    }
}

/// The texts of all marks are free of brackets.
pub open spec fn marks_bracket_free(silences: Seq<SilenceSpan>, total: MarkView) -> bool {
    &&& forall|i: int|
        0 <= i < silences.len() ==> bracket_free((#[trigger] silences[i]).start.text@)
            && bracket_free(silences[i].end.text@)
    &&& bracket_free(total.text)
}

proof fn lemma_cuts_bracket_free(silences: Seq<SilenceSpan>, total: MarkView, n: int)
    requires
        marks_bracket_free(silences, total),
        0 <= n <= silences.len(),
    ensures
        bracket_free(mark_before(silences, n).text),
        forall|i: int|
            0 <= i < cuts_before(silences, n).len() ==> bracket_free(
                (#[trigger] cuts_before(silences, n)[i]).start,
            ) && bracket_free(cuts_before(silences, n)[i].end),
    decreases n,
{
    reveal_strlit("0");
    if n > 0 {
        lemma_cuts_bracket_free(silences, total, n - 1);
        assert(bracket_free(silences[n - 1].start.text@) && bracket_free(
            silences[n - 1].end.text@,
        ));
        let before = cuts_before(silences, n - 1);
        let after = cuts_before(silences, n);
        assert forall|i: int| 0 <= i < after.len() implies bracket_free((#[trigger] after[i]).start)
            && bracket_free(after[i].end) by {
            if i < before.len() {
                assert(after[i] == before[i]);
            }
        }
    }
}

/// The graph without picture names no picture stream: neither that of the input nor a label of a
/// cut one.
pub proof fn law_sound_graph_names_no_picture(
    silences: Seq<SilenceSpan>,
    total: MarkView,
    k: int,
)
    requires
        marks_bracket_free(silences, total),
    ensures
        !stands_at(single_pass_filter(all_cuts(silences, total), false), "[0:v]"@, k),
        !stands_at(single_pass_filter(all_cuts(silences, total), false), "[v"@, k),
{
    let cuts = all_cuts(silences, total);
    let n = cuts.len() as int;
    let graph = single_pass_filter(cuts, false);
    lemma_cuts_bracket_free(silences, total, silences.len() as int);
    let before = cuts_before(silences, silences.len() as int);
    let sound = parts(cuts, n, false);
    let list = sound + outlets(cuts.len(), false);
    lemma_parts(cuts, n, 0);
    lemma_labels_outlets(cuts.len());
    assert forall|i: int| 0 <= i < list.len() implies sound_labels(#[trigger] list[i]) by {
        if i < n {
            lemma_parts(cuts, n, i);
            if i < before.len() {
                assert(cuts[i] == before[i]);
            }
            lemma_labels_audio_part(cuts[i], i as nat);
        }
    }
    lemma_labels_joined(list);
    reveal_strlit("[0:a]copy[a]");
    assert(sound_labels(graph));
    reveal_strlit("[0:v]");
    reveal_strlit("[v");
    if stands_at(graph, "[0:v]"@, k) {
        assert(graph.subrange(k, k + 5)[0] == graph[k]);
        assert(graph.subrange(k, k + 5)[1] == graph[k + 1]);
        assert(graph.subrange(k, k + 5)[3] == graph[k + 3]);
    }
    if stands_at(graph, "[v"@, k) {
        assert(graph.subrange(k, k + 2)[0] == graph[k]);
        assert(graph.subrange(k, k + 2)[1] == graph[k + 1]);
    }
}

} // verus!
