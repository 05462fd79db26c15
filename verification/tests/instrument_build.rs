use sfz::Instrument;
use sfz::LitKind;
use sfz::LoopModeKind;
use sfz::Opcode;
use sfz::OpcodeName;
use sfz::TriggerKind;

fn chars(s: &str) -> Vec<char> {
    s.chars().collect()
}

#[test]
fn single_region_without_ancestors() {
    let inst = Instrument::from_sfz("<region> lovel=3", "").unwrap();
    assert_eq!(inst.regions.len(), 1);
    let r = &inst.regions[0];
    assert_eq!(r.len(), 1);
    assert_eq!(r.get(OpcodeName::Lovel), Some(&Opcode::Lovel(3)));
    assert_eq!(r.get(OpcodeName::Hivel), None);
}

#[test]
fn sibling_regions_inherit_the_same_group() {
    let src = "<global> lokey=1 <group> hikey=2 <region> lovel=3 <region> lovel=4";
    let inst = Instrument::from_sfz(src, "").unwrap();
    assert_eq!(inst.regions.len(), 2);
    let r0 = &inst.regions[0];
    assert_eq!(r0.get(OpcodeName::Lokey), Some(&Opcode::Lokey(1)));
    assert_eq!(r0.get(OpcodeName::Hikey), Some(&Opcode::Hikey(2)));
    assert_eq!(r0.get(OpcodeName::Lovel), Some(&Opcode::Lovel(3)));
    let r1 = &inst.regions[1];
    assert_eq!(r1.get(OpcodeName::Lokey), Some(&Opcode::Lokey(1)));
    assert_eq!(r1.get(OpcodeName::Hikey), Some(&Opcode::Hikey(2)));
    assert_eq!(r1.get(OpcodeName::Lovel), Some(&Opcode::Lovel(4)));
}

#[test]
fn control_default_path_joins_the_base() {
    let src = "<control> default_path=foo/ <global> <region> sample=bar.wav";
    let inst = Instrument::from_sfz(src, "/base").unwrap();
    assert_eq!(inst.default_path, chars("/base/foo/"));
    assert_eq!(inst.regions.len(), 1);
    assert_eq!(
        inst.regions[0].get(OpcodeName::Sample),
        Some(&Opcode::Sample(chars("bar.wav")))
    );
    let control = inst.control_codes();
    assert_eq!(
        control.get(OpcodeName::DefaultPath),
        Some(&Opcode::DefaultPath(chars("foo/")))
    );
}

#[test]
fn default_path_outside_control_does_not_move_the_base() {
    let src = "<region> default_path=zzz";
    let inst = Instrument::from_sfz(src, "/base").unwrap();
    assert_eq!(inst.default_path, chars("/base"));
    assert_eq!(
        inst.regions[0].get(OpcodeName::DefaultPath),
        Some(&Opcode::DefaultPath(chars("zzz")))
    );
}

#[test]
fn absolute_default_path_replaces_the_base() {
    let src = "<control> default_path=/abs";
    let inst = Instrument::from_sfz(src, "/base").unwrap();
    assert_eq!(inst.default_path, chars("/abs"));
}

#[test]
fn end_of_input_flushes_an_open_region() {
    let src = "<group> hivel=9 <region> lovel=3";
    let inst = Instrument::from_sfz(src, "").unwrap();
    assert_eq!(inst.regions.len(), 1);
    let r = &inst.regions[0];
    assert_eq!(r.get(OpcodeName::Hivel), Some(&Opcode::Hivel(9)));
    assert_eq!(r.get(OpcodeName::Lovel), Some(&Opcode::Lovel(3)));
}

#[test]
fn parsing_twice_is_identical() {
    let src = "<control> default_path=x/ <global> key=c#4 <group> tune=-100 \
               <region> sample=a.wav <region> sample=b.wav";
    let a = Instrument::from_sfz(src, "/r").unwrap();
    let b = Instrument::from_sfz(src, "/r").unwrap();
    assert_eq!(a, b);
}

#[test]
fn bad_literal_is_fatal_and_names_the_literal() {
    let e = Instrument::from_sfz("<region> lovel=abc", "").unwrap_err();
    assert_eq!(e.kind, LitKind::U8Lit);
    assert_eq!(e.literal, chars("abc"));
    let e = Instrument::from_sfz("<region> lovel=300", "").unwrap_err();
    assert_eq!(e.kind, LitKind::U8Lit);
    let e = Instrument::from_sfz("<region> tune=x", "").unwrap_err();
    assert_eq!(e.kind, LitKind::I16Lit);
    let e = Instrument::from_sfz("<region> offset=4294967296", "").unwrap_err();
    assert_eq!(e.kind, LitKind::U32Lit);
    let e = Instrument::from_sfz("<region> key=h3", "").unwrap_err();
    assert_eq!(e.kind, LitKind::KeyLit);
}

#[test]
fn out_of_range_values_are_dropped_not_fatal() {
    let src = "<region> lovel=200 seq_length=0 seq_position=101 transpose=-128 tune=-101";
    let inst = Instrument::from_sfz(src, "").unwrap();
    assert_eq!(inst.regions.len(), 1);
    assert_eq!(inst.regions[0].len(), 0);
}

#[test]
fn in_range_values_are_kept_exactly() {
    let src = "<region> seq_length=1 seq_position=100 transpose=-127 tune=-100 \
               offset=4294967295 count=7 key=c#4 pitch_keycenter=60";
    let inst = Instrument::from_sfz(src, "").unwrap();
    let r = &inst.regions[0];
    assert_eq!(r.get(OpcodeName::SeqLength), Some(&Opcode::SeqLength(1)));
    assert_eq!(r.get(OpcodeName::SeqPosition), Some(&Opcode::SeqPosition(100)));
    assert_eq!(r.get(OpcodeName::Transpose), Some(&Opcode::Transpose(-127)));
    assert_eq!(r.get(OpcodeName::Tune), Some(&Opcode::Tune(-100)));
    assert_eq!(r.get(OpcodeName::Offset), Some(&Opcode::Offset(4294967295)));
    assert_eq!(r.get(OpcodeName::Count), Some(&Opcode::Count(7)));
    assert_eq!(r.get(OpcodeName::Key), Some(&Opcode::Key(60)));
    assert_eq!(
        r.get(OpcodeName::PitchKeycenter),
        Some(&Opcode::PitchKeycenter(60))
    );
}

#[test]
fn unsigned_key_opcode_drops_key_minus_one() {
    let inst = Instrument::from_sfz("<region> key=c-1", "").unwrap();
    assert_eq!(inst.regions[0].get(OpcodeName::Key), None);
}

#[test]
fn enumerations() {
    let src = "<region> loop_mode=one_shot trigger=release";
    let inst = Instrument::from_sfz(src, "").unwrap();
    let r = &inst.regions[0];
    assert_eq!(
        r.get(OpcodeName::LoopMode),
        Some(&Opcode::LoopMode(LoopModeKind::OneShot))
    );
    assert_eq!(
        r.get(OpcodeName::Trigger),
        Some(&Opcode::Trigger(TriggerKind::Release))
    );
    let inst = Instrument::from_sfz("<region> loop_mode=bogus", "").unwrap();
    assert_eq!(inst.regions[0].get(OpcodeName::LoopMode), None);
}

#[test]
fn unknown_opcodes_and_headers_are_ignored() {
    let inst = Instrument::from_sfz("<region> foo=bar lovel=3", "").unwrap();
    assert_eq!(inst.regions[0].len(), 1);
    let inst = Instrument::from_sfz("<weird> lovel=3", "").unwrap();
    assert_eq!(inst.regions.len(), 0);
}

#[test]
fn comments_are_skipped() {
    let src = "// a comment line\n<region> lovel=3 // trailing words\nhivel=4";
    let inst = Instrument::from_sfz(src, "").unwrap();
    let r = &inst.regions[0];
    assert_eq!(r.get(OpcodeName::Lovel), Some(&Opcode::Lovel(3)));
    assert_eq!(r.get(OpcodeName::Hivel), Some(&Opcode::Hivel(4)));
}

#[test]
fn a_second_global_resets_the_global_scope() {
    let src = "<global> lokey=1 <global> <region> lovel=3";
    let inst = Instrument::from_sfz(src, "").unwrap();
    assert_eq!(inst.regions[0].get(OpcodeName::Lokey), None);
    assert_eq!(inst.regions[0].get(OpcodeName::Lovel), Some(&Opcode::Lovel(3)));
}

#[test]
fn opcodes_before_any_header_join_the_implicit_global() {
    let src = "lovel=5 <region> hivel=6";
    let inst = Instrument::from_sfz(src, "").unwrap();
    let r = &inst.regions[0];
    assert_eq!(r.get(OpcodeName::Lovel), Some(&Opcode::Lovel(5)));
    assert_eq!(r.get(OpcodeName::Hivel), Some(&Opcode::Hivel(6)));
}

#[test]
fn later_opcode_of_the_same_name_overwrites_in_place() {
    let src = "<region> lovel=3 hivel=9 lovel=7";
    let inst = Instrument::from_sfz(src, "").unwrap();
    let r = &inst.regions[0];
    assert_eq!(r.len(), 2);
    assert_eq!(r.opcode_at(0), &Opcode::Lovel(7));
    assert_eq!(r.opcode_at(1), &Opcode::Hivel(9));
}

#[test]
fn region_overrides_inherited_value() {
    let src = "<group> lovel=1 <region> lovel=9 <region>";
    let inst = Instrument::from_sfz(src, "").unwrap();
    assert_eq!(inst.regions.len(), 2);
    assert_eq!(inst.regions[0].get(OpcodeName::Lovel), Some(&Opcode::Lovel(9)));
    assert_eq!(inst.regions[1].get(OpcodeName::Lovel), Some(&Opcode::Lovel(1)));
}

#[test]
fn curve_and_effect_cause_no_transition() {
    let src = "<group> lovel=1 <curve> hivel=2 <region> <effect>";
    let inst = Instrument::from_sfz(src, "").unwrap();
    assert_eq!(inst.regions.len(), 1);
    let r = &inst.regions[0];
    assert_eq!(r.get(OpcodeName::Lovel), Some(&Opcode::Lovel(1)));
    assert_eq!(r.get(OpcodeName::Hivel), Some(&Opcode::Hivel(2)));
}

#[test]
fn jumping_from_global_to_region_synthesizes_empty_scopes() {
    let src = "<global> lokey=1 <region> lovel=3";
    let inst = Instrument::from_sfz(src, "").unwrap();
    assert_eq!(inst.regions.len(), 1);
    let r = &inst.regions[0];
    assert_eq!(r.get(OpcodeName::Lokey), Some(&Opcode::Lokey(1)));
    assert_eq!(r.get(OpcodeName::Lovel), Some(&Opcode::Lovel(3)));
}

#[test]
fn popping_back_to_master_discards_deeper_scopes() {
    let src = "<master> lokey=10 <group> lovel=1 <region> hivel=2 <master> transpose=5 <region>";
    let inst = Instrument::from_sfz(src, "").unwrap();
    assert_eq!(inst.regions.len(), 2);
    let r0 = &inst.regions[0];
    assert_eq!(r0.get(OpcodeName::Lokey), Some(&Opcode::Lokey(10)));
    assert_eq!(r0.get(OpcodeName::Lovel), Some(&Opcode::Lovel(1)));
    assert_eq!(r0.get(OpcodeName::Hivel), Some(&Opcode::Hivel(2)));
    let r1 = &inst.regions[1];
    assert_eq!(r1.len(), 1);
    assert_eq!(r1.get(OpcodeName::Transpose), Some(&Opcode::Transpose(5)));
    assert_eq!(r1.get(OpcodeName::Lokey), None);
}
