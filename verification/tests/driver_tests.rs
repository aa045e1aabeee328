use minicc::driver::{Pass, Stage};

#[test]
fn stages_stop_after_their_pass() {
    assert!(!Stage::Lex.continues_after(Pass::Lex));
    assert!(Stage::Parse.continues_after(Pass::Lex));
    assert!(!Stage::Parse.continues_after(Pass::Parse));
    assert!(Stage::Tacky.continues_after(Pass::Parse));
    assert!(!Stage::Tacky.continues_after(Pass::Tacky));
    assert!(Stage::Codegen.continues_after(Pass::Tacky));
    assert!(!Stage::Codegen.continues_after(Pass::Codegen));
    assert!(Stage::Full.continues_after(Pass::Codegen));
    assert!(!Stage::Full.continues_after(Pass::Emit));
}
