//! Rendering the orchestrator's prompt templates with minijinja.
use vstd::prelude::*;

use std::collections::BTreeMap;

use super::orchestrator::MossError;
use crate::text::{push_str, str_eq};
use vstd::string::to_string_from_display_ensures;

verus! {

#[verifier::external_type_specification]
#[verifier::external_body]
pub struct ExEnvironment<'source>(minijinja::Environment<'source>);

#[verifier::external_type_specification]
#[verifier::external_body]
pub struct ExTemplateError(minijinja::Error);

/// The templates an environment holds: each name with the source stored
/// under it by `add_template`.
pub uninterp spec fn stored_templates(env: minijinja::Environment) -> Map<Seq<char>, Seq<char>>;

/// What rendering a template gives: the text that the template named
/// `name`, compiled from `source`, renders to with the string variables
/// `vars`, in an environment with the default configuration whose only
/// stored template is that one; `None` where rendering fails.
pub uninterp spec fn rendered(
    name: Seq<char>,
    source: Seq<char>,
    vars: Seq<(Seq<char>, Seq<char>)>,
) -> Option<Seq<char>>;

/// The environment compiles templates with minijinja's default syntax and
/// whitespace settings, the ones `Environment::new` sets up.
pub uninterp spec fn default_configuration(env: minijinja::Environment) -> bool;

/// Whether `source` compiles as a template under the default syntax and
/// whitespace settings (the template's name plays no part in it).
pub uninterp spec fn compiles(source: Seq<char>) -> bool;

/// `minijinja::Environment::new`: an environment with the default
/// configuration, holding no templates.
#[verifier::external_body]
fn new_environment<'s>() -> (env: minijinja::Environment<'s>)
    ensures
        stored_templates(env) =~= Map::empty(),
        default_configuration(env),
{
    minijinja::Environment::new()
}

/// `minijinja::Environment::add_template`: compiles `source` and, when it
/// compiles, stores it under `name`, replacing what was stored there. The
/// configuration is left as it was; under the default one, adding succeeds
/// exactly when the source compiles. What is stored after a failure is not
/// claimed.
#[verifier::external_body]
fn add_template<'s>(env: &mut minijinja::Environment<'s>, name: &'s str, source: &'s str) -> (r:
    Result<(), minijinja::Error>)
    ensures
        default_configuration(*old(env)) ==> default_configuration(*final(env)),
        default_configuration(*old(env)) ==> (r is Ok <==> compiles(source@)),
        r is Ok ==> stored_templates(*final(env)) == stored_templates(*old(env)).insert(
            name@,
            source@,
        ),
{
    env.add_template(name, source)
}

/// The templates of an environment that holds only `source`, under `name`.
pub open spec fn single_template(name: Seq<char>, source: Seq<char>) -> Map<Seq<char>, Seq<char>> {
    Map::empty().insert(name, source)
}

/// `minijinja::Environment::render_named_str` with the variables as a map
/// from name to value (the names are distinct, so the map holds each pair):
/// compiles `source` as a template named `name` and renders it. In an
/// environment with the default configuration that holds exactly this
/// template, it succeeds exactly where `rendered` gives a text, and returns
/// that text.
#[verifier::external_body]
fn render_named(
    env: &minijinja::Environment,
    name: &str,
    source: &str,
    vars: Vec<(String, String)>,
) -> (r: Result<String, minijinja::Error>)
    requires
        keys_distinct(vars.deep_view()),
    ensures
        default_configuration(*env) && stored_templates(*env) == single_template(name@, source@)
            ==> (r is Ok <==> rendered(name@, source@, vars.deep_view()) is Some),
        default_configuration(*env) && stored_templates(*env) == single_template(name@, source@)
            ==> (r matches Ok(s) ==> rendered(name@, source@, vars.deep_view()) == Some(s@)),
{
    let ctx: BTreeMap<String, String> = vars.into_iter().collect();
    env.render_named_str(name, source, &ctx)
}

/// No name occurs twice among the pairs.
pub open spec fn keys_distinct(c: Seq<(Seq<char>, Seq<char>)>) -> bool {
    forall|i: int, j: int| 0 <= i < j < c.len() ==> c[i].0 != c[j].0
}

/// The first position at or after `i` of a pair named `k`.
pub open spec fn key_pos(c: Seq<(Seq<char>, Seq<char>)>, k: Seq<char>, i: int) -> Option<int>
    decreases c.len() - i,
{
    if i >= c.len() {
        None
    } else if c[i].0 == k {
        Some(i)
    } else {
        key_pos(c, k, i + 1)
    }
}

/// Sets the variable `e.0` to `e.1`: its pair is replaced where there is one,
/// else `e` is added at the end.
pub open spec fn set_var(c: Seq<(Seq<char>, Seq<char>)>, e: (Seq<char>, Seq<char>)) -> Seq<
    (Seq<char>, Seq<char>),
> {
    match key_pos(c, e.0, 0) {
        Some(j) => c.update(j, e),
        None => c.push(e),
    }
}

/// The context of a rendering: the variables set in order, so that a later
/// value of a name replaces an earlier one.
pub open spec fn context_of(vars: Seq<(Seq<char>, Seq<char>)>) -> Seq<(Seq<char>, Seq<char>)>
    decreases vars.len(),
{
    if vars.len() == 0 {
        Seq::empty()
    } else {
        set_var(context_of(vars.drop_last()), vars.last())
    }
}

proof fn lemma_key_pos(c: Seq<(Seq<char>, Seq<char>)>, k: Seq<char>, i: int)
    requires
        0 <= i <= c.len(),
    ensures
        match key_pos(c, k, i) {
            Some(j) => i <= j < c.len() && c[j].0 == k,
            None => forall|m: int| i <= m < c.len() ==> c[m].0 != k,
        },
    decreases c.len() - i,
{
    if i < c.len() && c[i].0 != k {
        lemma_key_pos(c, k, i + 1);
    }
}

/// The context of a rendering, with each name once.
fn context_entries(vars: Vec<(String, String)>) -> (c: Vec<(String, String)>)
    ensures
        c.deep_view() == context_of(vars.deep_view()),
        keys_distinct(c.deep_view()),
{
    let ghost all = vars.deep_view();
    let mut rest = vars;
    let mut c: Vec<(String, String)> = Vec::new();
    let ghost mut n: int = 0;
    proof {
        assert(all.take(0) =~= Seq::<(Seq<char>, Seq<char>)>::empty());
        assert(c.deep_view() =~= Seq::<(Seq<char>, Seq<char>)>::empty());
        assert(rest.deep_view() =~= all.skip(0));
    }
    while rest.len() > 0
        invariant
            0 <= n <= all.len(),
            rest.deep_view() == all.skip(n),
            c.deep_view() == context_of(all.take(n)),
            keys_distinct(c.deep_view()),
        decreases rest.len(),
    {
        let ghost before = rest.deep_view();
        let ghost old_rest = rest@;
        let e = rest.remove(0);
        let ghost cv = c.deep_view();
        let ghost ev = e.deep_view();
        proof {
            assert(before.len() == old_rest.len());
            assert(before[0] == old_rest[0].deep_view());
            assert(all.skip(n)[0] == all[n]);
            assert(ev == all[n]);
            assert(ev.0 == e.0@);
            assert forall|i: int| 0 <= i < rest@.len() implies rest.deep_view()[i] == all.skip(n
                + 1)[i] by {
                assert(rest@[i] == old_rest[i + 1]);
                assert(before[i + 1] == old_rest[i + 1].deep_view());
                assert(all.skip(n)[i + 1] == all[n + 1 + i]);
            }
            assert(rest.deep_view() =~= all.skip(n + 1));
        }
        let mut j: usize = 0;
        while j < c.len() && !str_eq(c[j].0.as_str(), e.0.as_str())
            invariant
                j <= c.len(),
                c.deep_view() == cv,
                ev == e.deep_view(),
                key_pos(cv, ev.0, 0) == key_pos(cv, ev.0, j as int),
            decreases c.len() - j,
        {
            proof {
                assert(cv.len() == c@.len());
                assert(cv[j as int].0 == c@[j as int].0@);
                assert(cv[j as int].0 != ev.0);
                assert(key_pos(cv, ev.0, j as int) == key_pos(cv, ev.0, j as int + 1));
            }
            j += 1;
        }
        proof {
            lemma_key_pos(cv, ev.0, 0);
            if j < c.len() {
                assert(cv[j as int].0 == c@[j as int].0@);
            }
        }
        if j < c.len() {
            c.set(j, e);
            proof {
                assert(c.deep_view() =~= cv.update(j as int, ev));
                assert forall|a: int, b: int| 0 <= a < b < c.deep_view().len() implies c.deep_view()[a].0
                    != c.deep_view()[b].0 by {
                    assert(cv[a].0 != cv[b].0);
                }
            }
        } else {
            c.push(e);
            proof {
                assert(c.deep_view() =~= cv.push(ev));
                assert forall|a: int, b: int| 0 <= a < b < c.deep_view().len() implies c.deep_view()[a].0
                    != c.deep_view()[b].0 by {
                    if b < cv.len() {
                        assert(cv[a].0 != cv[b].0);
                    } else {
                        assert(cv[a].0 != ev.0);
                    }
                }
            }
        }
        proof {
            assert(set_var(cv, ev) == c.deep_view());
            n = n + 1;
            assert(all.take(n).drop_last() =~= all.take(n - 1));
            assert(all.take(n).last() == ev);
            assert(keys_distinct(c.deep_view()));
        }
    }
    proof {
        assert(all.take(n) =~= all);
    }
    c
}

/// The text of a failure at one stage: `prefix` followed by the error's text.
pub open spec fn stage_message(prefix: Seq<char>, e: minijinja::Error, m: Seq<char>) -> bool {
    exists|d: String| to_string_from_display_ensures::<minijinja::Error>(&e, d) && m == prefix + d@
}

/// The message of a failed rendering begins with `prefix`.
pub open spec fn failure_message(m: Seq<char>, prefix: Seq<char>) -> bool {
    prefix.len() <= m.len() && m.take(prefix.len() as int) == prefix
}

/// What rendering `source` as `name` with `vars` gives: where the source
/// compiles, the rendered text, or a blackboard error naming the rendering
/// stage where rendering fails; where it does not compile, a blackboard error
/// naming the compiling stage.
pub open spec fn prompt_outcome(
    name: Seq<char>,
    source: Seq<char>,
    vars: Seq<(Seq<char>, Seq<char>)>,
    r: Result<String, MossError>,
) -> bool {
    match r {
        Ok(s) => compiles(source) && rendered(name, source, context_of(vars)) == Some(s@),
        Err(MossError::Blackboard(m)) => if compiles(source) {
            failure_message(m@, "template render error: "@) && rendered(name, source, context_of(vars))
                is None
        } else {
            failure_message(m@, "template error: "@)
        },
        Err(_) => false,
    }
}

fn stage_error(prefix: &str, e: &minijinja::Error) -> (r: MossError)
    ensures
        r matches MossError::Blackboard(m) && stage_message(prefix@, *e, m@) && failure_message(
            m@,
            prefix@,
        ),
{
    let mut m = String::new();
    push_str(&mut m, prefix);
    let detail = e.to_string();
    push_str(&mut m, detail.as_str());
    proof {
        assert(m@.take(prefix@.len() as int) =~= prefix@);
        assert(m@ == prefix@ + detail@);
    }
    MossError::Blackboard(m)
}

/// The result of the rendering stage: the text, or a blackboard error whose
/// message is `template render error: ` followed by the error's text.
pub fn finish_render(outcome: Result<String, minijinja::Error>) -> (r: Result<String, MossError>)
    ensures
        match outcome {
            Ok(s) => r == Ok::<String, MossError>(s),
            Err(e) => r matches Err(MossError::Blackboard(m)) && stage_message(
                "template render error: "@,
                e,
                m@,
            ),
        },
{
    match outcome {
        Ok(text) => Ok(text),
        Err(e) => Err(stage_error("template render error: ", &e)),
    }
}

/// Renders the template `source`, registered as `name`, with the given
/// variables (a later value of a name replaces an earlier one). A failure is
/// reported as a blackboard error naming its stage.
pub fn render_prompt(name: &str, source: &str, vars: Vec<(String, String)>) -> (r: Result<
    String,
    MossError,
>)
    ensures
        prompt_outcome(name@, source@, vars.deep_view(), r),
{
    let ctx = context_entries(vars);
    let mut env = new_environment();
    match add_template(&mut env, name, source) {
        Ok(()) => {},
        Err(e) => {
            return Err(stage_error("template error: ", &e));
        },
    }
    proof {
        assert(stored_templates(env) =~= single_template(name@, source@));
    }
    let ghost cv = ctx.deep_view();
    let out = render_named(&env, name, source, ctx);
    let ghost outcome = out;
    let r = finish_render(out);
    proof {
        assert(cv == context_of(vars.deep_view()));
        match &r {
            Ok(s) => {
                assert(rendered(name@, source@, cv) == Some(s@));
            },
            Err(MossError::Blackboard(m)) => {
                assert(rendered(name@, source@, cv) is None);
                let p = "template render error: "@;
                let e = outcome->Err_0;
                let d = choose|d: String|
                    to_string_from_display_ensures::<minijinja::Error>(&e, d) && m@ == p + d@;
                assert(m@.take(p.len() as int) =~= p);
            },
            Err(_) => {},
        }
    }
    r
}

/// The planning prompt: the `decompose` template with the user's query and
/// the serialized board.
pub fn render_decompose_prompt(source: &str, user_query: String, blackboard_state: String) -> (r:
    Result<String, MossError>)
    ensures
        prompt_outcome(
            "decompose"@,
            source@,
            seq![("user_query"@, user_query@), ("blackboard_state"@, blackboard_state@)],
            r,
        ),
{
    let ghost q = user_query@;
    let ghost b = blackboard_state@;
    let mut vars: Vec<(String, String)> = Vec::new();
    vars.push(("user_query".to_owned(), user_query));
    vars.push(("blackboard_state".to_owned(), blackboard_state));
    proof {
        assert(vars.deep_view() =~= seq![("user_query"@, q), ("blackboard_state"@, b)]);
    }
    render_prompt("decompose", source, vars)
}

/// The synthesis prompt: the `synthesize` template with the intent and the
/// serialized evidence.
pub fn render_synthesize_prompt(source: &str, intent: String, evidence: String) -> (r: Result<
    String,
    MossError,
>)
    ensures
        prompt_outcome(
            "synthesize"@,
            source@,
            seq![("intent"@, intent@), ("evidence"@, evidence@)],
            r,
        ),
{
    let ghost i = intent@;
    let ghost e = evidence@;
    let mut vars: Vec<(String, String)> = Vec::new();
    vars.push(("intent".to_owned(), intent));
    vars.push(("evidence".to_owned(), evidence));
    proof {
        assert(vars.deep_view() =~= seq![("intent"@, i), ("evidence"@, e)]);
    }
    render_prompt("synthesize", source, vars)
}

} // verus!
