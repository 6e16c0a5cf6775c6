use btc_script::{evaluate, interpret, interpret_with, ScriptError};

fn run(h: &str) -> Result<Vec<Vec<u8>>, ScriptError> {
    evaluate(&hex::decode(h).unwrap()).map(|s| s.main)
}

fn err(h: &str) -> ScriptError {
    match run(h) {
        Err(e) => e,
        Ok(_) => panic!("script {} should fail", h),
    }
}

#[test]
fn push_one() {
    assert_eq!(run("51"), Ok(vec![vec![0x01]]));
    assert_eq!(interpret(&[0x51]), Ok(true));
}

#[test]
fn add_then_equal() {
    // 1, 2, ADD, 3, EQUAL
    let main = run("5152935387").unwrap();
    assert_eq!(main.last(), Some(&vec![0x01]));
    assert_eq!(interpret(&hex::decode("5152935387").unwrap()), Ok(true));
    // 0x59 is OP_9: 1 + 2 differs from 9
    let main = run("5152935987").unwrap();
    assert_eq!(main.last(), Some(&vec![]));
}

#[test]
fn if_on_empty_stack() {
    assert_eq!(err("63"), ScriptError::InvalidStackOperation);
}

#[test]
fn if_else_branch() {
    // 1, IF, 0, ELSE, 2, ENDIF
    let main = run("516300675268").unwrap();
    assert_eq!(main, vec![Vec::<u8>::new()]);
    // 1, IF, 0, 2, ELSE, with the block left open
    assert_eq!(err("5163005267"), ScriptError::UnbalancedConditional);
}

#[test]
fn return_at_top_level() {
    assert_eq!(err("6a"), ScriptError::OpReturn);
    assert_eq!(interpret(&[0x6a]), Err(ScriptError::OpReturn));
}

#[test]
fn truncated_push() {
    assert_eq!(err("4c02ab"), ScriptError::BadOpcode);
}

#[test]
fn strict_verdict() {
    assert_eq!(interpret_with(&[0x51], true), Ok(true));
    assert_eq!(interpret_with(&[0x00], true), Ok(false));
    assert_eq!(interpret_with(&[], true), Ok(false));
    assert_eq!(interpret_with(&[0x00], false), Ok(true));
}

#[test]
fn skipped_branch_runs_nothing() {
    assert_eq!(run("0063516a68"), Ok(vec![]));
    assert_eq!(run("00635167526868"), Err(ScriptError::UnbalancedConditional));
    assert_eq!(run("51640052675368"), Ok(vec![vec![0x03]]));
}

#[test]
fn notif_and_nesting() {
    assert_eq!(run("0064556868"), Err(ScriptError::UnbalancedConditional));
    assert_eq!(run("00645568"), Ok(vec![vec![0x05]]));
    assert_eq!(run("516300635168526768"), Ok(vec![vec![0x02]]));
    assert_eq!(run("51630063516852686868"), Err(ScriptError::UnbalancedConditional));
    assert_eq!(run("5163006351685268"), Ok(vec![vec![0x02]]));
}

#[test]
fn disabled_even_when_skipped() {
    assert_eq!(err("7e"), ScriptError::DisabledOpcode);
    assert_eq!(err("00637e68"), ScriptError::DisabledOpcode);
    assert_eq!(err("95"), ScriptError::DisabledOpcode);
}

#[test]
fn verif_even_when_skipped() {
    assert_eq!(err("00636568"), ScriptError::InvalidOpcode);
    assert_eq!(err("66"), ScriptError::InvalidOpcode);
}

#[test]
fn reserved_and_signature_opcodes() {
    assert_eq!(err("50"), ScriptError::BadOpcode);
    assert_eq!(err("ac"), ScriptError::BadOpcode);
    assert_eq!(run("0063ac68"), Ok(vec![]));
}

#[test]
fn oversized_push() {
    let mut s = vec![0x4d, 0x09, 0x02];
    s.extend(vec![0u8; 521]);
    assert_eq!(evaluate(&s).map(|x| x.main), Err(ScriptError::PushSize));
    let mut skipped = vec![0x00, 0x63, 0x4d, 0x09, 0x02];
    skipped.extend(vec![0u8; 521]);
    skipped.push(0x68);
    assert_eq!(evaluate(&skipped).map(|x| x.main), Err(ScriptError::PushSize));
    let mut ok = vec![0x4d, 0x08, 0x02];
    ok.extend(vec![7u8; 520]);
    assert_eq!(evaluate(&ok).map(|x| x.main.len()), Ok(1));
}

#[test]
fn stack_overflow_at_push() {
    let full = vec![0x51u8; 1000];
    assert_eq!(evaluate(&full).map(|x| x.main.len()), Ok(1000));
    let over = vec![0x51u8; 1001];
    assert_eq!(evaluate(&over).map(|x| x.main.len()), Err(ScriptError::StackOverflow));
    let mut with_alt = vec![0x51u8; 1000];
    with_alt.push(0x6b);
    with_alt.push(0x51);
    assert_eq!(evaluate(&with_alt).map(|x| x.main.len()), Err(ScriptError::StackOverflow));
}

#[test]
fn op_count_limit() {
    let ok = vec![0x61u8; 201];
    assert_eq!(interpret(&ok), Ok(true));
    let over = vec![0x61u8; 202];
    assert_eq!(interpret(&over), Err(ScriptError::OpCount));
    let mut skipped = vec![0x00, 0x63];
    skipped.extend(vec![0x61u8; 201]);
    skipped.push(0x68);
    assert_eq!(interpret(&skipped), Err(ScriptError::OpCount));
    let pushes = vec![0x51u8; 500];
    assert_eq!(interpret(&pushes), Ok(true));
}

#[test]
fn script_too_long() {
    let s = vec![0x61u8; 10_001];
    assert_eq!(interpret(&s), Err(ScriptError::ScriptSize));
}

#[test]
fn alt_stack() {
    assert_eq!(run("516b526c"), Ok(vec![vec![0x02], vec![0x01]]));
    assert_eq!(err("6c"), ScriptError::InvalidAltStackOperation);
    assert_eq!(err("6b"), ScriptError::InvalidStackOperation);
}

#[test]
fn duplication_ops() {
    assert_eq!(run("51526e"), Ok(vec![vec![1], vec![2], vec![1], vec![2]]));
    assert_eq!(run("5152536f"), Ok(vec![vec![1], vec![2], vec![3], vec![1], vec![2], vec![3]]));
    assert_eq!(
        run("5152535470"),
        Ok(vec![vec![1], vec![2], vec![3], vec![4], vec![1], vec![2]])
    );
    assert_eq!(run("5176"), Ok(vec![vec![1], vec![1]]));
    assert_eq!(run("515278"), Ok(vec![vec![1], vec![2], vec![1]]));
    assert_eq!(run("5173"), Ok(vec![vec![1], vec![1]]));
    assert_eq!(run("0073"), Ok(vec![vec![]]));
    assert_eq!(err("76"), ScriptError::InvalidStackOperation);
    assert_eq!(err("516e"), ScriptError::InvalidStackOperation);
}

#[test]
fn reordering_ops() {
    assert_eq!(
        run("51525354555671"),
        Ok(vec![vec![3], vec![4], vec![5], vec![6], vec![1], vec![2]])
    );
    assert_eq!(run("5152535472"), Ok(vec![vec![3], vec![4], vec![1], vec![2]]));
    assert_eq!(run("5152537b"), Ok(vec![vec![2], vec![3], vec![1]]));
    assert_eq!(run("51527c"), Ok(vec![vec![2], vec![1]]));
    assert_eq!(run("51527d"), Ok(vec![vec![2], vec![1], vec![2]]));
    assert_eq!(run("515277"), Ok(vec![vec![2]]));
    assert_eq!(run("51526d"), Ok(vec![]));
    assert_eq!(run("515275"), Ok(vec![vec![1]]));
    assert_eq!(err("515253545571"), ScriptError::InvalidStackOperation);
}

#[test]
fn pick_and_roll() {
    assert_eq!(run("5152535279"), Ok(vec![vec![1], vec![2], vec![3], vec![1]]));
    assert_eq!(run("515253527a"), Ok(vec![vec![2], vec![3], vec![1]]));
    assert_eq!(run("5152530079"), Ok(vec![vec![1], vec![2], vec![3], vec![3]]));
    assert_eq!(err("5152535379"), ScriptError::InvalidStackOperation);
    assert_eq!(err("5152534f79"), ScriptError::InvalidStackOperation);
    assert_eq!(err("5105010203040579"), ScriptError::NumberOverflow);
}

#[test]
fn depth_and_size() {
    assert_eq!(run("515274"), Ok(vec![vec![1], vec![2], vec![2]]));
    assert_eq!(run("74"), Ok(vec![vec![]]));
    assert_eq!(run("03aabbcc82"), Ok(vec![vec![0xaa, 0xbb, 0xcc], vec![3]]));
    assert_eq!(err("82"), ScriptError::InvalidStackOperation);
}

#[test]
fn equality_ops() {
    assert_eq!(run("515187"), Ok(vec![vec![1]]));
    assert_eq!(run("515287"), Ok(vec![vec![]]));
    assert_eq!(run("515188"), Ok(vec![]));
    assert_eq!(err("515288"), ScriptError::EqualVerify);
    assert_eq!(run("0100018087"), Ok(vec![vec![]]));
}

#[test]
fn verify_op() {
    assert_eq!(run("5169"), Ok(vec![]));
    assert_eq!(err("0069"), ScriptError::Verify);
    assert_eq!(err("018069"), ScriptError::Verify);
    assert_eq!(err("69"), ScriptError::InvalidStackOperation);
}

#[test]
fn unary_arithmetic() {
    assert_eq!(run("558b"), Ok(vec![vec![6]]));
    assert_eq!(run("558c"), Ok(vec![vec![4]]));
    assert_eq!(run("558f"), Ok(vec![vec![0x85]]));
    assert_eq!(run("4f90"), Ok(vec![vec![1]]));
    assert_eq!(run("0091"), Ok(vec![vec![1]]));
    assert_eq!(run("5591"), Ok(vec![vec![]]));
    assert_eq!(run("5592"), Ok(vec![vec![1]]));
    assert_eq!(run("0092"), Ok(vec![vec![]]));
    assert_eq!(run("04ffffff7f8b"), Ok(vec![vec![0x00, 0x00, 0x00, 0x80, 0x00]]));
    assert_eq!(err("0500000000008b"), ScriptError::NumberOverflow);
    assert_eq!(err("8b"), ScriptError::InvalidStackOperation);
}

#[test]
fn binary_arithmetic() {
    assert_eq!(run("535594"), Ok(vec![vec![0x82]]));
    assert_eq!(run("53559a"), Ok(vec![vec![1]]));
    assert_eq!(run("00559b"), Ok(vec![vec![1]]));
    assert_eq!(run("00009b"), Ok(vec![vec![]]));
    assert_eq!(run("53539c"), Ok(vec![vec![1]]));
    assert_eq!(run("53539d"), Ok(vec![]));
    assert_eq!(err("53549d"), ScriptError::NumEqualVerify);
    assert_eq!(run("53549e"), Ok(vec![vec![1]]));
    assert_eq!(run("53549f"), Ok(vec![vec![1]]));
    assert_eq!(run("5453a0"), Ok(vec![vec![1]]));
    assert_eq!(run("5353a1"), Ok(vec![vec![1]]));
    assert_eq!(run("5354a2"), Ok(vec![vec![]]));
    assert_eq!(run("5354a3"), Ok(vec![vec![3]]));
    assert_eq!(run("5354a4"), Ok(vec![vec![4]]));
    assert_eq!(err("5193"), ScriptError::InvalidStackOperation);
    assert_eq!(err("05000000000093"), ScriptError::NumberOverflow);
}

#[test]
fn within_is_numeric() {
    assert_eq!(run("535255a5"), Ok(vec![vec![1]]));
    assert_eq!(run("555255a5"), Ok(vec![vec![]]));
    assert_eq!(run("525255a5"), Ok(vec![vec![1]]));
    assert_eq!(run("4f0052a5"), Ok(vec![vec![]]));
    assert_eq!(run("01ff4f52a5"), Ok(vec![vec![]]));
    assert_eq!(run("0052020001a5"), Ok(vec![vec![]]));
    assert_eq!(err("5152a5"), ScriptError::InvalidStackOperation);
}

fn digest_of_empty(op: u8) -> Vec<u8> {
    let main = evaluate(&[0x00, op]).unwrap().main;
    assert_eq!(main.len(), 1);
    main[0].clone()
}

#[test]
fn crypto_ops() {
    assert_eq!(
        digest_of_empty(0xa6),
        hex::decode("9c1185a5c5e9fc54612808977ee8f548b2258d31").unwrap()
    );
    assert_eq!(
        digest_of_empty(0xa7),
        hex::decode("da39a3ee5e6b4b0d3255bfef95601890afd80709").unwrap()
    );
    assert_eq!(
        digest_of_empty(0xa8),
        hex::decode("e3b0c44298fc1c149afbf4c8996fb92427ae41e4649b934ca495991b7852b855").unwrap()
    );
    assert_eq!(
        digest_of_empty(0xa9),
        hex::decode("b472a266d0bd89c13706a4132ccfb16f7c3b9fcb").unwrap()
    );
    assert_eq!(
        digest_of_empty(0xaa),
        hex::decode("5df6e0e2761359d30a8275058e299fcc0381534545f55cf43e41983f5d4c9456").unwrap()
    );
    assert_eq!(err("a8"), ScriptError::InvalidStackOperation);
}

#[test]
fn p2pkh_without_signature_check() {
    let s = hex::decode("76a9149f21a07a0c7c3cf65a51f586051395762267cdaf88ac").unwrap();
    assert_eq!(interpret(&s), Err(ScriptError::InvalidStackOperation));
}

#[test]
fn nops() {
    assert_eq!(run("61b0b1b2b3b9"), Ok(vec![]));
}

#[test]
fn unbalanced_else_endif() {
    assert_eq!(err("67"), ScriptError::UnbalancedConditional);
    assert_eq!(err("68"), ScriptError::UnbalancedConditional);
    assert_eq!(err("5163"), ScriptError::UnbalancedConditional);
}
