use silence_cutter::double::Double;
use silence_cutter::single_pass::{build_filter_complex, Mark, SilenceSpan};

fn mark(x: f64) -> Mark {
    Mark { at: Double { bits: x.to_bits() }, text: x.to_string() }
}

fn span(start: f64, end: f64) -> SilenceSpan {
    SilenceSpan { start: mark(start), end: mark(end) }
}

#[test]
fn single_pass_with_picture() {
    assert_eq!(
        build_filter_complex(&[span(1.5, 2.0), span(3.0, 4.25)], &mark(6.0), true),
        "[0:v]trim=start=0:end=1.5,setpts=PTS-STARTPTS[v0];\
         [0:a]atrim=start=0:end=1.5,asetpts=PTS-STARTPTS[a0];\
         [0:v]trim=start=2:end=3,setpts=PTS-STARTPTS[v1];\
         [0:a]atrim=start=2:end=3,asetpts=PTS-STARTPTS[a1];\
         [0:v]trim=start=4.25:end=6,setpts=PTS-STARTPTS[v2];\
         [0:a]atrim=start=4.25:end=6,asetpts=PTS-STARTPTS[a2];\
         [v0][a0][v1][a1][v2][a2]concat=n=3:v=1:a=1[v][a]"
    );
}

#[test]
fn single_pass_with_sound_only() {
    assert_eq!(
        build_filter_complex(&[span(1.5, 2.0)], &mark(6.0), false),
        "[0:a]atrim=start=0:end=1.5,asetpts=PTS-STARTPTS[a0];\
         [0:a]atrim=start=2:end=6,asetpts=PTS-STARTPTS[a1];\
         [a0][a1]concat=n=2:v=0:a=1[a]"
    );
}

#[test]
fn single_pass_of_one_segment() {
    assert_eq!(
        build_filter_complex(&[span(0.0, 2.0)], &mark(6.0), true),
        "[0:v]trim=start=2:end=6,setpts=PTS-STARTPTS[v0];\
         [0:a]atrim=start=2:end=6,asetpts=PTS-STARTPTS[a0];[v0]copy[v];[a0]copy[a]"
    );
    assert_eq!(
        build_filter_complex(&[], &mark(6.0), false),
        "[0:a]atrim=start=0:end=6,asetpts=PTS-STARTPTS[a0];[a0]copy[a]"
    );
}

#[test]
fn single_pass_of_nothing() {
    assert_eq!(
        build_filter_complex(&[span(0.0, 6.0)], &mark(6.0), true),
        "[0:v]copy[v];[0:a]copy[a]"
    );
    assert_eq!(build_filter_complex(&[span(0.0, 6.0)], &mark(6.0), false), "[0:a]copy[a]");
}

#[test]
fn picture_and_sound_are_cut_alike() {
    let silences = vec![span(1.5, 2.0), span(3.0, 4.25), span(4.25, 5.0)];
    let both = build_filter_complex(&silences, &mark(6.0), true);
    let sound = build_filter_complex(&silences, &mark(6.0), false);
    let both: Vec<&str> = both.split(';').collect();
    let alone: Vec<&str> = sound.split(';').collect();
    assert_eq!(alone.len(), 4);
    for i in 0..3 {
        assert_eq!(both[2 * i + 1], alone[i]);
        let picture = alone[i].replace("[0:a]atrim", "[0:v]trim");
        let picture = picture.replace("asetpts", "setpts").replace("[a", "[v");
        assert_eq!(both[2 * i], picture);
    }
    assert!(!sound.contains("[0:v]") && !sound.contains("[v"));
    let nothing = build_filter_complex(&[span(0.0, 6.0)], &mark(6.0), false);
    assert!(!nothing.contains("[0:v]") && !nothing.contains("[v"));
}
