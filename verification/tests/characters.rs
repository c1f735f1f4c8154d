use dekor::Utf8;

#[test]
fn test_repeat_glyphs() {
    assert_eq!(Utf8::VPipeSlim.repeat(4), "││││");
    assert_eq!(Utf8::ModLetterLeftArrowhead.repeat(3), "˂˂˂");
    assert_eq!(Utf8::VPipeSlim.repeat(1), "│");
}

#[test]
fn test_repeat_zero_is_empty() {
    assert_eq!(Utf8::VPipeSlim.repeat(0), "");
    assert_eq!(Utf8::TriangleUp.repeat(0), "");
    assert_eq!(Utf8::EndGuardArea.repeat(0), "");
}

#[test]
fn test_render_pipes() {
    assert_eq!(Utf8::HPipeSlim.render(), "—");
    assert_eq!(Utf8::VPipeSlim.render(), "│");
    assert_eq!(Utf8::JointPipeSlim.render(), "├");
    assert_eq!(Utf8::NodePipeSlim.render(), "└");
    assert_eq!(Utf8::NodePipeCurved.render(), "╰");
    assert_eq!(Utf8::HPipeBold.render(), "━");
    assert_eq!(Utf8::VPipeBold.render(), "┃");
    assert_eq!(Utf8::JointPipeBold.render(), "┣");
    assert_eq!(Utf8::NodePipeBold.render(), "┗");
    assert_eq!(Utf8::HPipeDouble.render(), "═");
    assert_eq!(Utf8::VPipeDouble.render(), "║");
    assert_eq!(Utf8::JointPipeDouble.render(), "╠");
    assert_eq!(Utf8::NodePipeDouble.render(), "╚");
}

#[test]
fn test_render_arrowheads_and_triangles() {
    assert_eq!(Utf8::ModLetterLeftArrowhead.render(), "˂");
    assert_eq!(Utf8::ModLetterRightArrowhead.render(), "˃");
    assert_eq!(Utf8::ModLetterUpArrowhead.render(), "˄");
    assert_eq!(Utf8::ModLetterDownArrowhead.render(), "˅");
    assert_eq!(Utf8::EndGuardArea.render(), "—");
    assert_eq!(Utf8::CanadianSyllabicsE.render(), "ᐁ");
    assert_eq!(Utf8::CanadianSyllabicsI.render(), "ᐃ");
    assert_eq!(Utf8::CanadianSyllabicsO.render(), "ᐅ");
    assert_eq!(Utf8::CanadianSyllabicsA.render(), "ᐊ");
    assert_eq!(Utf8::TriangleDown.render(), "ᐁ");
    assert_eq!(Utf8::TriangleUp.render(), "ᐃ");
    assert_eq!(Utf8::TriangleRight.render(), "ᐅ");
    assert_eq!(Utf8::TriangleLeft.render(), "ᐊ");
}

#[test]
fn test_styled_glyphs() {
    let marked = dekor::style(&vec![dekor::Style::Bold, dekor::Style::FGGreen], "˅");
    assert_eq!(marked, "\x1b[1;32m˅\x1b[0m");
}
