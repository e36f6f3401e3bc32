use register_tool::errors::RegError;
use register_tool::memory::MemoryTarget;
use register_tool::register_tool::RegisterTool;
use register_tool::resolver::{ConfigDoc, ConfigField, ConfigNode, FieldValue};

fn node(path: &str, fields: Vec<(&str, FieldValue)>) -> ConfigNode {
    ConfigNode {
        path: path.to_string(),
        fields: fields
            .into_iter()
            .map(|(name, value)| ConfigField { name: name.to_string(), value })
            .collect(),
    }
}

fn s(v: &str) -> FieldValue {
    FieldValue::Str(v.to_string())
}

fn i(v: i64) -> FieldValue {
    FieldValue::Int(v)
}

fn doc(mut registers: Vec<ConfigNode>) -> ConfigDoc {
    let mut nodes = vec![
        node("", vec![("device", s("/dev/mem")), ("base", i(0)), ("length", i(4096))]),
        node("completion-metadata", vec![("root", s("registers"))]),
    ];
    nodes.append(&mut registers);
    ConfigDoc::new(nodes)
}

#[test]
fn round_trip_within_field_range() {
    let mut tool = RegisterTool::new(doc(vec![
        node("registers.R", vec![("offset", i(0)), ("bits", s("6:3"))]),
    ]))
    .unwrap();
    tool.gather_regs(&vec!["R=5", "R"]).unwrap();
    tool.set_test_area();
    let replies = tool.apply_registers().unwrap();
    assert_eq!(replies, vec![Ok(5), Ok(5)]);
}

#[test]
fn read_only_register_rejects_set() {
    let mut tool = RegisterTool::new(doc(vec![
        node("registers.RO", vec![("offset", i(0)), ("read-write", s("ro"))]),
    ]))
    .unwrap();
    let errs = tool.gather_regs(&vec!["RO=1"]).unwrap_err();
    assert_eq!(errs.len(), 1);
    assert_eq!(errs[0].subject, "RO=1");
    assert_eq!(errs[0].kind, RegError::ReadOnlyViolation);
}

#[test]
fn read_only_register_allows_get() {
    let mut tool = RegisterTool::new(doc(vec![
        node("registers.RO", vec![("offset", i(0)), ("read-write", s("ro"))]),
    ]))
    .unwrap();
    tool.gather_regs(&vec!["RO"]).unwrap();
    tool.set_test_area();
    assert_eq!(tool.apply_registers().unwrap(), vec![Ok(0)]);
}

#[test]
fn write_only_register_rejects_bare_get() {
    let mut tool = RegisterTool::new(doc(vec![
        node("registers.WO", vec![("offset", i(4)), ("read-write", s("wo"))]),
    ]))
    .unwrap();
    let errs = tool.gather_regs(&vec!["WO"]).unwrap_err();
    assert_eq!(errs.len(), 1);
    assert_eq!(errs[0].subject, "WO");
    assert_eq!(errs[0].kind, RegError::WriteOnlyUnreadable);
}

#[test]
fn write_only_register_with_shadow_reads_mirror() {
    let mut tool = RegisterTool::new(doc(vec![
        node(
            "registers.W",
            vec![("offset", i(4)), ("read-write", s("wo")), ("shadow", s("WS"))],
        ),
        node("registers.WS", vec![("offset", i(8))]),
    ]))
    .unwrap();
    // The write lands at the register's own offset; reads go through the
    // shadow, which the test buffer never mirrors back.
    tool.gather_regs(&vec!["W=1", "W"]).unwrap();
    tool.set_test_area();
    assert_eq!(tool.apply_registers().unwrap(), vec![Ok(1), Ok(0)]);
}

#[test]
fn gather_enumerates_every_invalid_spec() {
    let mut tool = RegisterTool::new(doc(vec![
        node("registers.GOOD", vec![("offset", i(0))]),
    ]))
    .unwrap();
    let errs = tool
        .gather_regs(&vec!["NoSuch", "Also.Bad=zz", "GOOD", "A=B=C"])
        .unwrap_err();
    assert_eq!(errs.len(), 3);
    assert_eq!(errs[0].subject, "NoSuch");
    assert_eq!(errs[0].kind, RegError::InvalidOffset);
    assert_eq!(errs[1].subject, "Also.Bad=zz");
    assert_eq!(errs[1].kind, RegError::BadArgument);
    assert_eq!(errs[2].subject, "A=B=C");
    assert_eq!(errs[2].kind, RegError::BadArgument);
}

#[test]
fn value_bound_follows_shift() {
    let mut tool = RegisterTool::new(doc(vec![
        node("registers.R", vec![("offset", i(0)), ("bits", s("4:2"))]),
    ]))
    .unwrap();
    // The construction bound is value > (1 << shift), shift being 2 here.
    let errs = tool.gather_regs(&vec!["R=5"]).unwrap_err();
    assert_eq!(errs[0].kind, RegError::ValueOutOfRange);

    let mut tool = RegisterTool::new(doc(vec![
        node("registers.R", vec![("offset", i(0)), ("bits", s("4:2"))]),
    ]))
    .unwrap();
    tool.gather_regs(&vec!["R=4"]).unwrap();
}

#[test]
fn plus_sign_is_not_a_value() {
    let mut tool = RegisterTool::new(doc(vec![
        node("registers.R", vec![("offset", i(0))]),
    ]))
    .unwrap();
    let errs = tool.gather_regs(&vec!["R=+1"]).unwrap_err();
    assert_eq!(errs[0].kind, RegError::BadArgument);
}

#[test]
fn empty_sides_of_equals() {
    let mut tool = RegisterTool::new(doc(vec![
        node("registers.R", vec![("offset", i(0))]),
    ]))
    .unwrap();
    let errs = tool.gather_regs(&vec!["R=", "=5"]).unwrap_err();
    assert_eq!(errs.len(), 2);
    assert_eq!(errs[0].subject, "R=");
    assert_eq!(errs[0].kind, RegError::BadArgument);
    assert_eq!(errs[1].subject, "=5");
    assert_eq!(errs[1].kind, RegError::InvalidOffset);
}

#[test]
fn full_word_register_accepts_only_zero_and_one() {
    // With the default "31:0" range the shift is zero, and the value
    // bound is checked against the shift: only 0 and 1 pass.
    let mut tool = RegisterTool::new(doc(vec![
        node("registers.R", vec![("offset", i(0))]),
    ]))
    .unwrap();
    tool.gather_regs(&vec!["R=1", "R=0"]).unwrap();
    let errs = tool.gather_regs(&vec!["R=2"]).unwrap_err();
    assert_eq!(errs[0].kind, RegError::ValueOutOfRange);
}

#[test]
fn values_beyond_32_bits_are_malformed() {
    let mut tool = RegisterTool::new(doc(vec![
        node("registers.R", vec![("offset", i(0))]),
    ]))
    .unwrap();
    let errs = tool.gather_regs(&vec!["R=4294967296"]).unwrap_err();
    assert_eq!(errs[0].kind, RegError::BadArgument);
}

#[test]
fn unknown_access_kind_is_rejected() {
    let mut tool = RegisterTool::new(doc(vec![
        node("registers.R", vec![("offset", i(0)), ("read-write", s("foo"))]),
    ]))
    .unwrap();
    let errs = tool.gather_regs(&vec!["R"]).unwrap_err();
    assert_eq!(errs[0].kind, RegError::InvalidAccessKind);
}

#[test]
fn access_kind_synonyms_are_accepted() {
    let mut tool = RegisterTool::new(doc(vec![
        node("registers.A", vec![("offset", i(0)), ("read-write", s("rw"))]),
        node("registers.B", vec![("offset", i(4)), ("read-write", s("wr"))]),
        node("registers.C", vec![("offset", i(8)), ("read-write", s("w1c"))]),
    ]))
    .unwrap();
    tool.gather_regs(&vec!["A", "B", "C"]).unwrap();
}

#[test]
fn missing_tool_fields_are_all_reported() {
    let errs = RegisterTool::new(ConfigDoc::new(vec![
        node("", vec![("device", s("/dev/mem"))]),
    ]))
    .unwrap_err();
    assert_eq!(errs.len(), 2);
    assert_eq!(errs[0].subject, "base");
    assert_eq!(errs[0].kind, RegError::ConfigFieldMissing);
    assert_eq!(errs[1].subject, "length");
    assert_eq!(errs[1].kind, RegError::ConfigFieldMissing);
}

#[test]
fn apply_without_target_is_unbound() {
    let mut tool = RegisterTool::new(doc(vec![
        node("registers.R", vec![("offset", i(0))]),
    ]))
    .unwrap();
    tool.gather_regs(&vec!["R"]).unwrap();
    assert_eq!(tool.apply_registers(), Err(RegError::Unbound));
}

#[test]
fn bad_addresses_fail_per_register_only() {
    let mut tool = RegisterTool::new(doc(vec![
        node("registers.FAR", vec![("offset", i(8192))]),
        node("registers.ODD", vec![("offset", i(2))]),
        node("registers.OK", vec![("offset", i(0))]),
    ]))
    .unwrap();
    tool.gather_regs(&vec!["FAR", "ODD", "OK"]).unwrap();
    tool.set_test_area();
    let replies = tool.apply_registers().unwrap();
    assert_eq!(
        replies,
        vec![Err(RegError::AddressOutOfRange), Err(RegError::Misaligned), Ok(0)]
    );
}

#[test]
fn gather_restores_root_for_the_next_batch() {
    let mut tool = RegisterTool::new(doc(vec![
        node("registers.R", vec![("offset", i(0))]),
    ]))
    .unwrap();
    tool.gather_regs(&vec!["R"]).unwrap();
    tool.gather_regs(&vec!["R"]).unwrap();
    tool.set_test_area();
    assert_eq!(tool.apply_registers().unwrap(), vec![Ok(0), Ok(0)]);
}

#[test]
fn parent_chain_cycle_resolves_to_nothing() {
    let mut tool = RegisterTool::new(doc(vec![
        node("registers.A", vec![("parent", s("B"))]),
        node("registers.B", vec![("parent", s("A"))]),
    ]))
    .unwrap();
    let errs = tool.gather_regs(&vec!["A"]).unwrap_err();
    assert_eq!(errs[0].kind, RegError::InvalidOffset);
}

#[test]
fn fields_inherit_through_parents() {
    let mut tool = RegisterTool::new(doc(vec![
        node("registers.base.reg", vec![("bits", s("7:4")), ("read-write", s("rw"))]),
        node("registers.R", vec![("offset", i(0)), ("parent", s("base.reg"))]),
    ]))
    .unwrap();
    tool.gather_regs(&vec!["R=9", "R"]).unwrap();
    tool.set_test_area();
    assert_eq!(tool.apply_registers().unwrap(), vec![Ok(9), Ok(9)]);
}

#[test]
fn describe_reports_fields_and_every_bad_path() {
    let mut tool = RegisterTool::new(doc(vec![
        node(
            "registers.R",
            vec![
                ("offset", i(28)),
                ("bits", s("23:21")),
                ("read-write", s("rw")),
                ("description", s("pin function")),
            ],
        ),
    ]))
    .unwrap();
    let (infos, bad) = tool
        .describe_registers(&vec!["R=7", "Missing", "Absent.too"])
        .unwrap();
    assert_eq!(infos.len(), 3);
    assert_eq!(infos[0].path, "R");
    assert_eq!(infos[0].offset, Some(28));
    assert_eq!(infos[0].bits, "23:21");
    assert_eq!(infos[0].read_write, "rw");
    assert_eq!(infos[0].width, 32);
    assert_eq!(infos[0].description, "pin function");
    assert_eq!(infos[1].path, "Missing");
    assert_eq!(infos[1].offset, None);
    assert_eq!(infos[1].read_write, "unspecified");
    assert_eq!(infos[1].description, "not given");
    assert_eq!(bad, vec!["Missing".to_string(), "Absent.too".to_string()]);
}

#[test]
fn memory_target_checks_alignment_and_range() {
    let target = MemoryTarget::test(16);
    assert_eq!(target.word_count(), 4);
    assert_eq!(target.read_word32(0), Ok(0));
    assert_eq!(target.read_word32(12), Ok(0));
    assert_eq!(target.read_word32(2), Err(RegError::Misaligned));
    assert_eq!(target.read_word32(16), Err(RegError::AddressOutOfRange));

    let mut target = MemoryTarget::test(16);
    assert_eq!(target.write_word32(4, 0xDEAD_BEEF), Ok(()));
    assert_eq!(target.read_word32(4), Ok(0xDEAD_BEEF));
    assert_eq!(target.write_word32(5, 1), Err(RegError::Misaligned));
    assert_eq!(target.write_word32(4096, 1), Err(RegError::AddressOutOfRange));
}
