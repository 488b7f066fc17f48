//! Interactive prompts, answered by a policy since the browser cannot ask.
use vstd::prelude::*;

use crate::table::{answer_entries, AnswerTable};
use crate::text::{ascii_lower, chars_of, lowered, trim_bounds, trimmed, to_ascii_lowercase};

verus! {

/// How prompts are answered.
#[derive(Debug)]
pub enum PromptPolicy {
    AlwaysConfirm,
    AlwaysDeny,
    Refuse,
    Scripted(AnswerTable),
}

impl Default for PromptPolicy {
    fn default() -> (p: Self)
        ensures
            p is Refuse,
    {
        PromptPolicy::Refuse
    }
}

/// A prompt that could not be answered.
#[derive(Debug)]
pub enum PromptError {
    Unavailable(String),
}

/// The sentence a refusal displays as.
pub open spec fn refusal_message(question: Seq<char>) -> Seq<char> {
    "interactive prompt required in the browser: "@ + question
        + "; pass --yes or configure a prompt policy"@
}

impl PromptError {
    /// The question that went unanswered.
    pub open spec fn question(self) -> Seq<char> {
        match self {
            PromptError::Unavailable(q) => q@,
        }
    }

    /// The sentence the refusal displays as.
    pub fn message(&self) -> (m: String)
        ensures
            m@ == refusal_message(self.question()),
    {
        match self {
            PromptError::Unavailable(question) => {
                let s = String::from_str("interactive prompt required in the browser: ");
                let s = s.concat(question.as_str());
                s.concat("; pass --yes or configure a prompt policy")
            },
        }
    }
}

/// Makes `policy` the current policy.
pub fn set(current: &mut PromptPolicy, policy: PromptPolicy)
    ensures
        *final(current) == policy,
{
    *current = policy;
}

/// Goes back to refusing every prompt.
pub fn reset(current: &mut PromptPolicy)
    ensures
        *final(current) is Refuse,
{
    *current = PromptPolicy::Refuse;
}

/// A scripted answer counts as yes when, trimmed and lowered, it is `y` or `yes`.
pub open spec fn is_yes(answer: Seq<char>) -> bool {
    lowered(trimmed(answer)) == seq!['y'] || lowered(trimmed(answer)) == seq!['y', 'e', 's']
}

/// What `confirm` answers under `policy`: yes, no, or a refusal.
pub open spec fn confirm_spec(policy: PromptPolicy, question: Seq<char>) -> Option<bool> {
    match policy {
        PromptPolicy::AlwaysConfirm => Some(true),
        PromptPolicy::AlwaysDeny => Some(false),
        PromptPolicy::Refuse => None,
        PromptPolicy::Scripted(t) => if answer_entries(t).contains_key(question) {
            Some(is_yes(answer_entries(t)[question]))
        } else {
            None
        },
    }
}

fn yes_answer(answer: &str) -> (r: bool)
    ensures
        r == is_yes(answer@),
{
    let cs = chars_of(answer);
    let (a, b) = trim_bounds(&cs, 0, cs.len());
    assert(cs@.subrange(0, cs.len() as int) =~= cs@);
    let mut t: Vec<char> = Vec::new();
    let mut i = a;
    while i < b
        invariant
            a <= i <= b <= cs.len(),
            t@ == lowered(cs@.subrange(a as int, i as int)),
        decreases b - i,
    {
        t.push(crate::text::lower_char(cs[i]));
        assert(lowered(cs@.subrange(a as int, i + 1)) =~= lowered(cs@.subrange(a as int, i as int)).push(
            crate::text::ascii_lower(cs@[i as int]),
        ));
        i = i + 1;
    }
    let one = t.len() == 1 && t[0] == 'y';
    let three = t.len() == 3 && t[0] == 'y' && t[1] == 'e' && t[2] == 's';
    proof {
        if t@ == seq!['y'] {
            assert(t@[0] == 'y');
        }
        if t@ == seq!['y', 'e', 's'] {
            assert(t@[0] == 'y' && t@[1] == 'e' && t@[2] == 's');
        }
        if one {
            assert(t@ =~= seq!['y']);
        }
        if three {
            assert(t@ =~= seq!['y', 'e', 's']);
        }
    }
    one || three
}

/// Answers a yes/no question under `policy`, or refuses it.
pub fn confirm(policy: &PromptPolicy, question: &str) -> (r: Result<bool, PromptError>)
    ensures
        match (r, confirm_spec(*policy, question@)) {
            (Ok(b), Some(c)) => b == c,
            (Err(e), None) => e.question() == question@,
            _ => false,
        },
{
    match policy {
        PromptPolicy::AlwaysConfirm => Ok(true),
        PromptPolicy::AlwaysDeny => Ok(false),
        PromptPolicy::Refuse => Err(PromptError::Unavailable(String::from_str(question))),
        PromptPolicy::Scripted(answers) => match answers.get(question) {
            Some(answer) => Ok(yes_answer(answer.as_str())),
            None => Err(PromptError::Unavailable(String::from_str(question))),
        },
    }
}

/// Answers a free-text question: only a script can, with the answer as written.
pub fn answer(policy: &PromptPolicy, question: &str) -> (r: Result<String, PromptError>)
    ensures
        match policy {
            PromptPolicy::Scripted(t) => if answer_entries(*t).contains_key(question@) {
                r matches Ok(a) && a@ == answer_entries(*t)[question@]
            } else {
                r matches Err(e) && e.question() == question@
            },
            _ => r matches Err(e) && e.question() == question@,
        },
{
    match policy {
        PromptPolicy::Scripted(answers) => match answers.get(question) {
            Some(a) => Ok(a),
            None => Err(PromptError::Unavailable(String::from_str(question))),
        },
        _ => Err(PromptError::Unavailable(String::from_str(question))),
    }
}

} // verus!

verus! {

/// A scripted answer confirms exactly when, with surrounding whitespace taken off, it is one
/// character `y` or three characters `y`, `e`, `s`, each in either ASCII case; an answer
/// that is empty or only whitespace, and every other text, declines.
pub proof fn law_scripted_yes(t: AnswerTable, question: Seq<char>)
    requires
        answer_entries(t).contains_key(question),
    ensures
        ({
            let a = trimmed(answer_entries(t)[question]);
            &&& confirm_spec(PromptPolicy::Scripted(t), question) is Some
            &&& (confirm_spec(PromptPolicy::Scripted(t), question) == Some(true)) <==> ((a.len() == 1
                && ascii_lower(a[0]) == 'y') || (a.len() == 3 && ascii_lower(a[0]) == 'y'
                && ascii_lower(a[1]) == 'e' && ascii_lower(a[2]) == 's'))
            &&& a.len() == 0 ==> confirm_spec(PromptPolicy::Scripted(t), question) == Some(false)
        }),
{
    let a = trimmed(answer_entries(t)[question]);
    let l = lowered(a);
    assert(l.len() == a.len());
    assert(forall|i: int| 0 <= i < a.len() ==> l[i] == ascii_lower(#[trigger] a[i]));
    if a.len() == 1 && ascii_lower(a[0]) == 'y' {
        assert(l =~= seq!['y']);
    }
    if a.len() == 3 && ascii_lower(a[0]) == 'y' && ascii_lower(a[1]) == 'e' && ascii_lower(a[2]) == 's' {
        assert(l =~= seq!['y', 'e', 's']);
    }
    if l == seq!['y'] {
        assert(l[0] == 'y');
    }
    if l == seq!['y', 'e', 's'] {
        assert(l[0] == 'y' && l[1] == 'e' && l[2] == 's');
    }
}

/// A script that holds no answer for the question refuses it rather than guessing.
pub proof fn law_unscripted_question_refused(t: AnswerTable, question: Seq<char>)
    requires
        !answer_entries(t).contains_key(question),
    ensures
        confirm_spec(PromptPolicy::Scripted(t), question) is None,
{
}

} // verus!
