use btc_script::opcodes::Opcode;
use btc_script::{parse_one_op, parse_script, ScriptError, ScriptItem};

fn data_of(item: &ScriptItem) -> Option<Vec<u8>> {
    match item {
        ScriptItem::ByteArray(b) => Some(b.clone()),
        ScriptItem::Opcode(_) => None,
    }
}

fn code_of(item: &ScriptItem) -> Option<u8> {
    match item {
        ScriptItem::Opcode(Opcode { code }) => Some(*code),
        ScriptItem::ByteArray(_) => None,
    }
}

#[test]
fn parse_p2pkh() {
    let bytes = hex::decode("76a9149f21a07a0c7c3cf65a51f586051395762267cdaf88ac").unwrap();
    let script = parse_script(&bytes).unwrap();
    assert!(script.valid);
    assert_eq!(script.items.len(), 5);
    assert_eq!(code_of(&script.items[0]), Some(0x76));
    assert_eq!(code_of(&script.items[1]), Some(0xa9));
    assert_eq!(data_of(&script.items[2]), Some(bytes[3..23].to_vec()));
    assert_eq!(code_of(&script.items[3]), Some(0x88));
    assert_eq!(code_of(&script.items[4]), Some(0xac));
}

#[test]
fn parse_pushdata_forms() {
    let bytes = vec![0x4c, 0x02, 0xaa, 0xbb, 0x4d, 0x01, 0x00, 0xcc, 0x4e, 0x00, 0x00, 0x00, 0x00];
    let script = parse_script(&bytes).unwrap();
    assert_eq!(script.items.len(), 3);
    assert_eq!(data_of(&script.items[0]), Some(vec![0xaa, 0xbb]));
    assert_eq!(data_of(&script.items[1]), Some(vec![0xcc]));
    assert_eq!(data_of(&script.items[2]), Some(vec![]));
}

#[test]
fn parse_truncated_pushdata1() {
    assert!(matches!(parse_script(&[0x4c, 0x02, 0xab]), Err(ScriptError::BadOpcode)));
}

#[test]
fn parse_truncated_length_prefix() {
    assert!(matches!(parse_script(&[0x4d, 0x01]), Err(ScriptError::BadOpcode)));
    assert!(matches!(parse_script(&[0x4e, 0x01, 0x00, 0x00]), Err(ScriptError::BadOpcode)));
    assert!(matches!(parse_script(&[0x03, 0x01, 0x02]), Err(ScriptError::BadOpcode)));
}

#[test]
fn parse_empty() {
    let script = parse_script(&[]).unwrap();
    assert!(script.items.is_empty());
}

#[test]
fn step_consumes_exactly() {
    let bytes = vec![0x51, 0x02, 0x01, 0x02, 0x4c, 0x01, 0x07, 0x87];
    let mut pc: usize = 0;
    let mut count = 0;
    while let Some(_) = parse_one_op(&bytes, &mut pc).unwrap() {
        count += 1;
    }
    assert_eq!(count, 4);
    assert_eq!(pc, bytes.len());
}

#[test]
fn step_leaves_cursor_on_error() {
    let bytes = vec![0x51, 0x05, 0x01];
    let mut pc: usize = 0;
    assert!(matches!(parse_one_op(&bytes, &mut pc), Ok(Some(_))));
    assert_eq!(pc, 1);
    assert!(matches!(parse_one_op(&bytes, &mut pc), Err(ScriptError::BadOpcode)));
    assert_eq!(pc, 1);
}
