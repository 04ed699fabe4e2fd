use popone::single_instance::{
    next_handover_action, strip_verbatim_prefix, to_wide, HandoverAction, HandoverEvent,
    InstanceCheck,
};

#[test]
fn wide_strings_are_nul_terminated_utf16() {
    assert_eq!(to_wide("ab"), vec![97, 98, 0]);
    assert_eq!(to_wide(""), vec![0]);
    let s = "Local\\popone_viewer_single_instance";
    let expected: Vec<u16> = s.encode_utf16().chain(std::iter::once(0)).collect();
    assert_eq!(to_wide(s), expected);
    let s = "日本🎨x";
    let expected: Vec<u16> = s.encode_utf16().chain(std::iter::once(0)).collect();
    assert_eq!(to_wide(s), expected);
}

#[test]
fn verbatim_prefixes_are_stripped() {
    assert_eq!(strip_verbatim_prefix(r"\\?\UNC\server\share\a.pmx"), r"\\server\share\a.pmx");
    assert_eq!(strip_verbatim_prefix(r"\\?\C:\models\a.pmx"), r"C:\models\a.pmx");
    assert_eq!(strip_verbatim_prefix(r"C:\models\a.pmx"), r"C:\models\a.pmx");
    assert_eq!(strip_verbatim_prefix(""), "");
}

#[test]
fn handover_steps() {
    assert_eq!(
        next_handover_action(HandoverEvent::Mutex { created: false, already_exists: true }),
        HandoverAction::Finish(InstanceCheck::Primary)
    );
    assert_eq!(
        next_handover_action(HandoverEvent::Mutex { created: true, already_exists: false }),
        HandoverAction::Finish(InstanceCheck::Primary)
    );
    assert_eq!(next_handover_action(HandoverEvent::Mutex { created: true, already_exists: true }), HandoverAction::Continue);
    assert_eq!(
        next_handover_action(HandoverEvent::PipeWait { ready: false }),
        HandoverAction::Finish(InstanceCheck::FallbackStart)
    );
    assert_eq!(next_handover_action(HandoverEvent::PipeWait { ready: true }), HandoverAction::Continue);
    assert_eq!(
        next_handover_action(HandoverEvent::PipeOpen { opened: false }),
        HandoverAction::Finish(InstanceCheck::FallbackStart)
    );
    assert_eq!(next_handover_action(HandoverEvent::PipeOpen { opened: true }), HandoverAction::Continue);
    assert_eq!(
        next_handover_action(HandoverEvent::Write { ok: true, written: 10, expected: 10 }),
        HandoverAction::Finish(InstanceCheck::Forwarded)
    );
    assert_eq!(
        next_handover_action(HandoverEvent::Write { ok: true, written: 4, expected: 10 }),
        HandoverAction::Finish(InstanceCheck::FallbackStart)
    );
    assert_eq!(
        next_handover_action(HandoverEvent::Write { ok: false, written: 10, expected: 10 }),
        HandoverAction::Finish(InstanceCheck::FallbackStart)
    );
}
