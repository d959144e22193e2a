use sudoku::actions::{parse_action_string, Action, ActionParsingError};

fn parse(text: &str) -> Result<Action, ActionParsingError> {
    Action::try_from(String::from(text))
}

fn call(text: &str) -> Option<(String, Vec<String>)> {
    parse_action_string(text)
}

fn strs(list: &[&str]) -> Vec<String> {
    list.iter().map(|s| s.to_string()).collect()
}

#[test]
fn calls_are_taken_apart() {
    assert_eq!(call("ClearCell()"), Some((String::from("ClearCell"), strs(&[]))));
    assert_eq!(call("WriteCell(5)"), Some((String::from("WriteCell"), strs(&["5"]))));
    assert_eq!(call("f(a,b)"), Some((String::from("f"), strs(&["a", "b"]))));
    assert_eq!(call("f(  a ,\tb  )"), Some((String::from("f"), strs(&["a", "b"]))));
    assert_eq!(call("f(a,,b)"), Some((String::from("f"), strs(&["a", "", "b"]))));
    assert_eq!(call("f(,)"), Some((String::from("f"), strs(&["", ""]))));
    assert_eq!(call("f( )"), Some((String::from("f"), strs(&[""]))));
    assert_eq!(call("()"), Some((String::new(), strs(&[]))));
    assert_eq!(call(" f (x)"), Some((String::from(" f "), strs(&["x"]))));
    assert_eq!(call("f(a)b)"), Some((String::from("f"), strs(&["a)b"]))));
    assert_eq!(call("f(\u{a0}x\u{2003})"), Some((String::from("f"), strs(&["x"]))));
}

#[test]
fn texts_that_are_no_calls_are_refused() {
    assert_eq!(call(""), None);
    assert_eq!(call("ClearCell"), None);
    assert_eq!(call("f(x"), None);
    assert_eq!(call("f(x) "), None);
    assert_eq!(call("f((x))"), None);
    assert_eq!(call("f(x)(y)"), None);
    assert_eq!(call("f)x("), None);
    assert_eq!(call("f("), None);
    assert_eq!(call("("), None);
}

#[test]
fn actions_without_arguments() {
    assert_eq!(parse("CycleColor()").ok(), Some(Action::CycleColor));
    assert_eq!(parse("ClearAllColors()").ok(), Some(Action::ClearAllColors));
    assert_eq!(parse("ClearCell()").ok(), Some(Action::ClearCell));
    assert_eq!(parse("clearcell()").ok(), Some(Action::ClearCell));
    assert_eq!(parse("CLEARCELL()").ok(), Some(Action::ClearCell));
}

#[test]
fn actions_with_a_digit() {
    assert_eq!(parse("WriteCell(1)").ok(), Some(Action::WriteCell(1)));
    assert_eq!(parse("writecell( 9 )").ok(), Some(Action::WriteCell(9)));
    assert_eq!(parse("WriteCell(+4)").ok(), Some(Action::WriteCell(4)));
    assert_eq!(parse("SetCandidate(3)").ok(), Some(Action::SetCandidate(3)));
    assert_eq!(parse("RemoveCandidate(7)").ok(), Some(Action::RemoveCandidate(7)));
    assert_eq!(parse("ToggleCandidate(5)").ok(), Some(Action::ToggleCandidate(5)));
}

#[test]
fn actions_with_a_step() {
    assert_eq!(parse("MoveRow(1, true)").ok(), Some(Action::MoveRow(1, true)));
    assert_eq!(parse("MoveRow(-1,TRUE)").ok(), Some(Action::MoveRow(-1, true)));
    assert_eq!(parse("moverow(-128, false)").ok(), Some(Action::MoveRow(-128, false)));
    assert_eq!(parse("MoveCol(127, yes)").ok(), Some(Action::MoveCol(127, false)));
    assert_eq!(parse("MoveCol(0,)").ok(), Some(Action::MoveCol(0, false)));
    assert_eq!(parse("MoveRow(1, true))").ok(), Some(Action::MoveRow(1, false)));
}

#[test]
fn texts_that_are_no_actions_are_reported() {
    for text in [
        "",
        "ClearCell",
        "ClearCell(1)",
        "Clear Cell()",
        "ClearCell ()",
        "Unknown()",
        "WriteCell()",
        "WriteCell(0)",
        "WriteCell(10)",
        "WriteCell(256)",
        "WriteCell(-1)",
        "WriteCell(x)",
        "WriteCell(1, 2)",
        "WriteCell(1",
        "SetCandidate(0)",
        "MoveRow(1)",
        "MoveRow(128, true)",
        "MoveRow(x, true)",
        "MoveRow(1, true, 3)",
        "WriteCell(1))",
        "MoveRow(",
    ] {
        let error = parse(text).err().unwrap_or_else(|| panic!("{:?} was read", text));
        assert_eq!(error.message(), format!("Invalid action: {}", text));
    }
}

#[test]
fn parts_decide_the_action() {
    assert_eq!(Action::from_parts("clearcell", 0, None, None, false), Some(Action::ClearCell));
    assert_eq!(Action::from_parts("clearcell", 1, Some(1), None, false), None);
    assert_eq!(Action::from_parts("ClearCell", 0, None, None, false), None);
    assert_eq!(Action::from_parts("writecell", 1, Some(5), None, false), Some(Action::WriteCell(5)));
    assert_eq!(Action::from_parts("writecell", 1, Some(0), None, false), None);
    assert_eq!(Action::from_parts("writecell", 1, Some(10), None, false), None);
    assert_eq!(Action::from_parts("writecell", 1, None, Some(5), false), None);
    assert_eq!(Action::from_parts("writecell", 2, Some(5), Some(5), false), None);
    assert_eq!(
        Action::from_parts("moverow", 2, None, Some(-3), true),
        Some(Action::MoveRow(-3, true))
    );
    assert_eq!(
        Action::from_parts("movecol", 2, Some(3), Some(3), false),
        Some(Action::MoveCol(3, false))
    );
    assert_eq!(Action::from_parts("movecol", 2, Some(3), None, false), None);
    assert_eq!(Action::from_parts("movecol", 3, Some(3), Some(3), false), None);
}
