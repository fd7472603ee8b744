use endfind::command::command_fields;

fn fields(text: &str) -> Vec<String> {
    let chars: Vec<char> = text.chars().collect();
    command_fields(&chars).into_iter().map(|f| f.into_iter().collect()).collect()
}

#[test]
fn command_fields_of_teleport_command() {
    let text = "/execute in minecraft:overworld run tp @s 123.45 64.00 -678.90 -45.3 12.1";
    let all = fields(text);
    let numbers: Vec<&String> = all.iter().filter(|f| !f.is_empty()).collect();
    assert_eq!(numbers, vec!["123.45", "64.00", "-678.90", "-45.3", "12.1"]);
}

#[test]
fn command_fields_drop_letters_and_keep_empty_pieces() {
    assert_eq!(fields("x1  y2 "), vec!["1", "", "2"]);
    assert_eq!(fields("abc"), vec![""]);
    assert_eq!(fields(""), vec![""]);
    assert_eq!(fields("   "), vec![""]);
}

#[test]
fn command_fields_keep_signs_and_points() {
    assert_eq!(fields("a-1.5b 2"), vec!["-1.5", "2"]);
    assert_eq!(fields("tp 0 64 0"), vec!["0", "64", "0"]);
}

#[test]
fn command_fields_keep_other_numerals() {
    assert_eq!(fields("Ⅻ ½"), vec!["Ⅻ", "½"]);
}
