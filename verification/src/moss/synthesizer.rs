//! The synthesizer fills its prompt template with the query and the board
//! state before handing it to its provider.
use vstd::prelude::*;

use crate::text::{chars_of, contains_seq, law_replace_absent, replace_all, replace_chars, string_of};

verus! {

/// A synthesizer over a provider of type `P`.
pub struct Synthesizer<P> {
    pub provider: P,
}

/// The prompt: `{user_query}` replaced by the query, then `{blackboard_state}`
/// replaced by the serialized board.
pub open spec fn synthesis_prompt(template: Seq<char>, query: Seq<char>, state: Seq<char>) -> Seq<
    char,
> {
    replace_all(replace_all(template, "{user_query}"@, query), "{blackboard_state}"@, state)
}

impl<P> Synthesizer<P> {
    pub fn new(provider: P) -> (s: Self)
        ensures
            s.provider == provider,
    {
        Synthesizer { provider }
    }

    /// Fills the prompt template.
    pub fn render_prompt(&self, template: &str, query: &str, blackboard_state: &str) -> (p: String)
        ensures
            p@ == synthesis_prompt(template@, query@, blackboard_state@),
    {
        let uq = chars_of("{user_query}");
        let bs = chars_of("{blackboard_state}");
        proof {
            reveal_strlit("{user_query}");
            reveal_strlit("{blackboard_state}");
        }
        let step = replace_chars(&chars_of(template), &uq, &chars_of(query));
        let full = replace_chars(&step, &bs, &chars_of(blackboard_state));
        string_of(&full)
    }
}

/// A template without placeholders is sent as it is.
pub proof fn law_template_without_placeholders(template: Seq<char>, query: Seq<char>, state: Seq<
    char,
>)
    requires
        !contains_seq(template, "{user_query}"@),
        !contains_seq(template, "{blackboard_state}"@),
    ensures
        synthesis_prompt(template, query, state) == template,
{
    reveal_strlit("{user_query}");
    reveal_strlit("{blackboard_state}");
    law_replace_absent(template, "{user_query}"@, query);
    law_replace_absent(template, "{blackboard_state}"@, state);
}

} // verus!
