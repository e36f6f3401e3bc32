use register_tool::register_op::parse_bits;
use register_tool::register_tool::RegisterTool;
use register_tool::resolver::{ConfigDoc, ConfigField, ConfigNode, FieldValue};

fn node(path: &str, fields: Vec<(&str, FieldValue)>) -> ConfigNode {
    ConfigNode {
        path: path.to_string(),
        fields: fields
            .into_iter()
            .map(|(name, value)| ConfigField { name: name.to_string(), value })
            .collect(),
    }
}

fn s(v: &str) -> FieldValue {
    FieldValue::Str(v.to_string())
}

fn i(v: i64) -> FieldValue {
    FieldValue::Int(v)
}

/// The register map the GPIO tests run against: `words.function2` is the
/// whole word at offset 28, and `pins@27.function` is bits 23:21 of the
/// same word (the bits come from the parent node `pins.function`).
fn gpio_doc() -> ConfigDoc {
    ConfigDoc::new(vec![
        node(
            "",
            vec![("device", s("/dev/mem")), ("base", i(0x3f200000)), ("length", i(4096))],
        ),
        node("completion-metadata", vec![("root", s("registers"))]),
        node("registers.GPIO.words.function2", vec![("offset", i(28))]),
        node("registers.GPIO.pins.function", vec![("bits", s("23:21"))]),
        node(
            "registers.GPIO.pins@27.function",
            vec![("offset", i(28)), ("parent", s("GPIO.pins.function"))],
        ),
    ])
}

#[test]
fn test_bitmask() {
    let (mask, lo) = parse_bits("4:2").unwrap();
    assert_eq!(mask, 0b011100);
    assert_eq!(lo, 2);

    let (mask, lo) = parse_bits("3:3").unwrap();
    assert_eq!(mask, 0b01000);
    assert_eq!(lo, 3);

    let (mask, lo) = parse_bits("31:0").unwrap();
    assert_eq!(mask, 0xFFFFFFFF);
    assert_eq!(lo, 0);
}

#[test]
fn test_gather_and_apply_regsters() {
    let regspecs = vec![
        "GPIO.words.function2=0",
        "GPIO.pins@27.function=1",
        "GPIO.words.function2",
        "GPIO.pins@27.function",
    ];

    let mut register_tool = RegisterTool::new(gpio_doc()).unwrap();

    register_tool.gather_regs(&regspecs).unwrap();
    register_tool.set_test_area();

    let replies = register_tool.apply_registers().unwrap();

    assert_eq!(replies.len(), 4);
    assert_eq!(replies[0].clone().unwrap(), 0x00000000);
    assert_eq!(replies[1].clone().unwrap(), 0x00000001);
    assert_eq!(replies[2].clone().unwrap(), 0x00200000);
    assert_eq!(replies[3].clone().unwrap(), 0x00000001);
}
