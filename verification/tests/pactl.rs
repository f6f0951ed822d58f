use my_translator::pactl::{listed_source_names, source_serial};
use my_translator::target::{
    default_input_target, default_monitor_target, LookupStep, PactlQuery, PactlReply,
    TargetLookup,
};

const SHORT: &str = "49\talsa_output.pci-0000_00_1f.3.analog-stereo.monitor\tPipeWire\ts32le 2ch 48000Hz\tSUSPENDED\n\
50\talsa_input.pci-0000_00_1f.3.analog-stereo\tPipeWire\ts32le 2ch 48000Hz\tRUNNING\n";

const DETAILS: &str = "Source #49\n\
\tState: SUSPENDED\n\
\tName: alsa_output.pci-0000_00_1f.3.analog-stereo.monitor\n\
\tDescription: Monitor of Built-in Audio\n\
\tProperties:\n\
\t\tobject.serial = \"51\"\n\
\t\tnode.name = \"alsa_output.pci-0000_00_1f.3.analog-stereo\"\n\
\n\
Source #50\n\
\tState: RUNNING\n\
\tName: alsa_input.pci-0000_00_1f.3.analog-stereo\r\n\
\tProperties:\r\n\
\t\tobject.serial = \"62\"\r\n";

fn run(lookup: &mut TargetLookup, first: PactlQuery, answer: impl Fn(PactlQuery) -> PactlReply) -> (Vec<PactlQuery>, Result<String, String>) {
    let mut asked = vec![first];
    let mut step = lookup.advance(answer(first));
    loop {
        match step {
            LookupStep::Run(q) => {
                asked.push(q);
                step = lookup.advance(answer(q));
            }
            LookupStep::Done(result) => {
                assert!(lookup.is_finished());
                return (asked, result);
            }
        }
    }
}

fn printed(s: &str) -> PactlReply {
    PactlReply::Printed(s.to_string())
}

#[test]
fn short_list_names_are_second_fields() {
    assert_eq!(
        listed_source_names(SHORT),
        vec![
            "alsa_output.pci-0000_00_1f.3.analog-stereo.monitor".to_string(),
            "alsa_input.pci-0000_00_1f.3.analog-stereo".to_string(),
        ]
    );
    assert_eq!(listed_source_names("one\n\n  x  y z\r\nlast"), vec!["y".to_string()]);
    assert!(listed_source_names("").is_empty());
}

#[test]
fn serial_of_named_source() {
    assert_eq!(
        source_serial(DETAILS, "alsa_output.pci-0000_00_1f.3.analog-stereo.monitor"),
        Some("51".to_string())
    );
    assert_eq!(
        source_serial(DETAILS, "alsa_input.pci-0000_00_1f.3.analog-stereo"),
        Some("62".to_string())
    );
    assert_eq!(source_serial(DETAILS, "alsa_output"), None);
    assert_eq!(source_serial("", "x"), None);
    // a serial before any Name line belongs to no source
    assert_eq!(source_serial("object.serial = 1\nName: x\n", "x"), None);
}

#[test]
fn monitor_target_from_default_sink_serial() {
    let (mut lookup, first) = default_monitor_target();
    assert_eq!(first, PactlQuery::DefaultSink);
    let (asked, result) = run(&mut lookup, first, |q| match q {
        PactlQuery::DefaultSink => printed("alsa_output.pci-0000_00_1f.3.analog-stereo\n"),
        PactlQuery::ListSources => printed(DETAILS),
        _ => PactlReply::Failed("not expected".to_string()),
    });
    assert_eq!(asked, vec![PactlQuery::DefaultSink, PactlQuery::ListSources]);
    assert_eq!(result, Ok("51".to_string()));
}

#[test]
fn monitor_target_falls_back_to_name_without_serial() {
    let (mut lookup, first) = default_monitor_target();
    let (_, result) = run(&mut lookup, first, |q| match q {
        PactlQuery::DefaultSink => printed("  speakers  "),
        PactlQuery::ListSources => printed(DETAILS),
        _ => PactlReply::Failed("not expected".to_string()),
    });
    assert_eq!(result, Ok("speakers.monitor".to_string()));
}

#[test]
fn monitor_target_from_short_list_when_no_default() {
    let (mut lookup, first) = default_monitor_target();
    let (asked, result) = run(&mut lookup, first, |q| match q {
        PactlQuery::DefaultSink => PactlReply::Unsuccessful,
        PactlQuery::ListShortSources => printed(SHORT),
        _ => PactlReply::Failed("not expected".to_string()),
    });
    assert_eq!(asked, vec![PactlQuery::DefaultSink, PactlQuery::ListShortSources]);
    assert_eq!(result, Ok("alsa_output.pci-0000_00_1f.3.analog-stereo.monitor".to_string()));
}

#[test]
fn monitor_target_errors() {
    let (mut lookup, first) = default_monitor_target();
    let (_, result) = run(&mut lookup, first, |_| PactlReply::Failed("Failed to run pactl: gone".to_string()));
    assert_eq!(result, Err("Failed to run pactl: gone".to_string()));

    let (mut lookup, first) = default_monitor_target();
    let (_, result) = run(&mut lookup, first, |q| match q {
        PactlQuery::DefaultSink => printed("sink"),
        _ => PactlReply::Unsuccessful,
    });
    assert_eq!(result, Err("pactl returned no source details".to_string()));

    let (mut lookup, first) = default_monitor_target();
    let (_, result) = run(&mut lookup, first, |q| match q {
        PactlQuery::DefaultSink => printed("   \n"),
        _ => PactlReply::Unsuccessful,
    });
    assert_eq!(result, Err("pactl returned no sources".to_string()));

    let (mut lookup, first) = default_monitor_target();
    let (_, result) = run(&mut lookup, first, |q| match q {
        PactlQuery::DefaultSink => PactlReply::Unsuccessful,
        _ => printed("50\tmic\tPipeWire\n"),
    });
    assert_eq!(
        result,
        Err("No PipeWire/Pulse monitor source found. Make sure an audio output device is available.".to_string())
    );
}

#[test]
fn input_target_skips_monitor_default() {
    let (mut lookup, first) = default_input_target();
    assert_eq!(first, PactlQuery::DefaultSource);
    let (asked, result) = run(&mut lookup, first, |q| match q {
        PactlQuery::DefaultSource => printed("alsa_output.pci-0000_00_1f.3.analog-stereo.monitor\n"),
        PactlQuery::ListShortSources => printed(SHORT),
        _ => PactlReply::Failed("not expected".to_string()),
    });
    assert_eq!(asked, vec![PactlQuery::DefaultSource, PactlQuery::ListShortSources]);
    assert_eq!(result, Ok("alsa_input.pci-0000_00_1f.3.analog-stereo".to_string()));
}

#[test]
fn input_target_from_default_source_serial() {
    let (mut lookup, first) = default_input_target();
    let (_, result) = run(&mut lookup, first, |q| match q {
        PactlQuery::DefaultSource => printed("alsa_input.pci-0000_00_1f.3.analog-stereo"),
        PactlQuery::ListSources => printed(DETAILS),
        _ => PactlReply::Failed("not expected".to_string()),
    });
    assert_eq!(result, Ok("62".to_string()));
}

#[test]
fn input_target_no_microphone() {
    let (mut lookup, first) = default_input_target();
    let (_, result) = run(&mut lookup, first, |q| match q {
        PactlQuery::DefaultSource => printed(""),
        _ => printed("1\tspeakers.monitor\tPipeWire\n"),
    });
    assert_eq!(
        result,
        Err("No PipeWire/Pulse microphone source found. Connect a microphone and set a default input device.".to_string())
    );
}
