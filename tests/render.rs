use yrice::render::render;
use yrice::variable::Variable;

fn var(name: &str, value: &str) -> Variable {
    Variable::new(name.to_string(), value.to_string())
}

#[test]
fn variable_new_keeps_fields() {
    let v = var("user", "ana");
    assert_eq!(v.name, "user");
    assert_eq!(v.value, "ana");
}

#[test]
fn render_substitutes_placeholder() {
    let out = render("hello %{{X}} world", &vec![var("X", "Y")]);
    assert_eq!(out, "hello Y world");
}

#[test]
fn render_leaves_unmatched_placeholder() {
    let out = render("a %{{Z}} b %{{X}}", &vec![var("X", "Y")]);
    assert_eq!(out, "a %{{Z}} b Y");
}

#[test]
fn render_twice_is_identical() {
    let vars = vec![var("X", "1"), var("name", "two")];
    let src = "%{{X}}-%{{name}}-%{{X}} {{X}}";
    let a = render(src, &vars);
    let b = render(src, &vars);
    assert_eq!(a, b);
    assert_eq!(a, "1-two-1 {{X}}");
}

#[test]
fn render_without_variables_is_identity() {
    assert_eq!(render("%{{X}} text", &vec![]), "%{{X}} text");
    assert_eq!(render("", &vec![var("X", "Y")]), "");
}

#[test]
fn render_applies_variables_in_order() {
    // The first value introduces a placeholder that the second fills.
    let vars = vec![var("A", "%{{B}}"), var("B", "b")];
    assert_eq!(render("[%{{A}}]", &vars), "[b]");
    let reversed = vec![var("B", "b"), var("A", "%{{B}}")];
    assert_eq!(render("[%{{A}}]", &reversed), "[%{{B}}]");
}

#[test]
fn render_handles_non_ascii_and_adjacent_placeholders() {
    let vars = vec![var("é", "ü"), var("k", "")];
    assert_eq!(render("%{{é}}%{{é}}%{{k}}ß", &vars), "üüß");
}

#[test]
fn render_value_can_be_longer_than_placeholder() {
    let vars = vec![var("p", "a much longer value")];
    assert_eq!(render("<%{{p}}>", &vars), "<a much longer value>");
}
