use moss::moss::prompt::{finish_render, render_decompose_prompt, render_prompt, render_synthesize_prompt};
use moss::moss::synthesizer::Synthesizer;
use moss::moss::orchestrator::MossError;

#[test]
fn synthesizer_fills_placeholders_in_order() {
    let s = Synthesizer::new(());
    let p = s.render_prompt("Q: {user_query}\nS: {blackboard_state}\nQ again: {user_query}", "why?", "{}");
    assert_eq!(p, "Q: why?\nS: {}\nQ again: why?");
    // A query holding the state placeholder is filled too, as the replacements run in turn.
    let p = s.render_prompt("{user_query}", "{blackboard_state}", "S");
    assert_eq!(p, "S");
    assert_eq!(s.render_prompt("no placeholders", "q", "s"), "no placeholders");
}

#[test]
fn decompose_prompt_renders_variables() {
    let p = render_decompose_prompt(
        "<q>{{ user_query }}</q><s>{{ blackboard_state }}</s>",
        "find flights".to_string(),
        "{}".to_string(),
    )
    .unwrap();
    assert_eq!(p, "<q>find flights</q><s>{}</s>");
}

#[test]
fn synthesize_prompt_renders_variables() {
    let p = render_synthesize_prompt("{{ intent }} / {{ evidence }}", "goal".to_string(), "[]".to_string())
        .unwrap();
    assert_eq!(p, "goal / []");
}

#[test]
fn template_syntax_error_is_reported() {
    let r = render_decompose_prompt("{{ unclosed", "q".to_string(), "s".to_string());
    match r {
        Err(MossError::Blackboard(m)) => assert!(m.starts_with("template error: ")),
        _ => panic!("expected a template error"),
    }
}

#[test]
fn later_variable_value_wins() {
    let vars = vec![
        ("a".to_string(), "1".to_string()),
        ("b".to_string(), "2".to_string()),
        ("a".to_string(), "3".to_string()),
    ];
    assert_eq!(render_prompt("t", "{{ a }}{{ b }}", vars).unwrap(), "32");
}

#[test]
fn render_stage_outcome_is_passed_on() {
    assert_eq!(finish_render(Ok("text".to_string())).unwrap(), "text");
    let e = minijinja::Error::new(minijinja::ErrorKind::InvalidOperation, "bad value");
    let shown = e.to_string();
    match finish_render(Err(e)) {
        Err(MossError::Blackboard(m)) => assert_eq!(m, format!("template render error: {}", shown)),
        _ => panic!("expected a render error"),
    }
}
