//! Questions to the user: what is asked, and what is answered where nobody can be asked.

use crate::interaction::{input_required, InputRequired, Interaction, ScriptedAnswers};
use crate::lists::{chosen, lemma_chosen_same, lemma_filter_is_chosen};
use crate::text::{cat2, cat3, cat5, dec, decimal};
use vstd::prelude::*;

verus! {

/// What to do about a question that cannot be asked.
#[derive(Debug)]
pub enum Fallback<T> {
    /// There is no safe answer: fail, with this hint.
    Require(&'static str),
    /// Take this answer.
    Default(T),
}

/// How a question for one of several options is settled.
#[derive(Debug)]
pub enum Selection {
    /// A person is to choose.
    Ask,
    /// There is only one option, and it is taken.
    Only(String),
    /// A script chose the option at that place.
    Scripted(usize, String),
    /// The answer for the case that nobody can be asked.
    Fallback(String),
}

/// Why a question has no answer.
#[derive(Debug)]
pub enum PromptError {
    NoOptions,
    InputRequired(InputRequired),
}

impl PromptError {
    pub open spec fn text(self) -> Seq<char> {
        match self {
            PromptError::NoOptions => "No options available for selection"@,
            PromptError::InputRequired(e) => e.0@,
        }
    }

    pub fn message(&self) -> (r: String)
        ensures
            r@ == self.text(),
    {
        match self {
            PromptError::NoOptions => "No options available for selection".to_owned(),
            PromptError::InputRequired(e) => e.message(),
        }
    }
}

/// The choice that the script has for this question, if there is a script that goes that far and
/// the choice is one of the options.
pub open spec fn scripted_choice(mode: Interaction, options: int) -> Option<int> {
    match mode {
        Interaction::Scripted(a) => if a.selection_cursor < a.selections@.len()
            && a.selections@[a.selection_cursor as int] < options {
            Some(a.selections@[a.selection_cursor as int] as int)
        } else {
            None
        },
        _ => None,
    }
}

/// The script stands one choice further, and nothing else of it changed.
pub open spec fn script_moved(before: Interaction, after: Interaction) -> bool {
    match (before, after) {
        (Interaction::Scripted(a), Interaction::Scripted(b)) => {
            &&& b.selection_cursor == if a.selection_cursor < usize::MAX {
                a.selection_cursor + 1
            } else {
                0
            }
            &&& b.selections == a.selections
            &&& b.single_selection == a.single_selection
            &&& b.multi_selections == a.multi_selections
            &&& b.pr_body_action == a.pr_body_action
            &&& b.pr_edit_title == a.pr_edit_title
            &&& b.assume_yes == a.assume_yes
        },
        _ => false,
    }
}

/// Settles a question for one of several options. The only option is taken without asking a script.
pub fn prompt_select(
    mode: &mut Interaction,
    message: &str,
    options: &Vec<String>,
    fallback: Fallback<String>,
) -> (r: Result<Selection, PromptError>)
    ensures
        ({
            let n = options@.len() as int;
            let before = *old(mode);
            let choice = scripted_choice(before, n);
            match r {
                Err(PromptError::NoOptions) => n == 0,
                Err(PromptError::InputRequired(e)) => {
                    &&& n > 1 && !(before is Interactive) && choice is None
                    &&& fallback matches Fallback::Require(hint) && e.0@
                        == "Cannot choose between "@ + dec(n as nat)
                        + " options without a terminal: "@ + message@ + (" "@ + hint@)
                },
                Ok(Selection::Ask) => n > 1 && before is Interactive,
                Ok(Selection::Only(s)) => n == 1 && s@ == options@[0]@,
                Ok(Selection::Scripted(i, s)) => n > 1 && choice == Some(i as int) && s@
                    == options@[i as int]@,
                Ok(Selection::Fallback(s)) => {
                    &&& n > 1 && !(before is Interactive) && choice is None
                    &&& fallback == Fallback::Default(s)
                },
            }
        }),
        options@.len() <= 1 || !(*old(mode) is Scripted) ==> *final(mode) == *old(mode),
        options@.len() > 1 && *old(mode) is Scripted ==> script_moved(*old(mode), *final(mode)),
{
    let n: usize = options.len();
    if n == 0 {
        return Err(PromptError::NoOptions);
    }
    if n == 1 {
        return Ok(Selection::Only(options[0].clone()));
    }
    if mode.is_interactive() {
        return Ok(Selection::Ask);
    }
    if let Interaction::Scripted(answers) = mode {
        if let Some(i) = answers.next_selection() {
            if i < n {
                return Ok(Selection::Scripted(i, options[i].clone()));
            }
        }
    }
    match fallback {
        Fallback::Default(value) => Ok(Selection::Fallback(value)),
        Fallback::Require(hint) => {
            let end = cat2(" ", hint);
            let text = cat5(
                "Cannot choose between ",
                decimal(n as u64).as_str(),
                " options without a terminal: ",
                message,
                end.as_str(),
            );
            Err(PromptError::InputRequired(input_required(text)))
        },
    }
}

/// How a question for any number of options is settled.
#[derive(Debug)]
pub enum MultiSelection {
    /// A person is to choose.
    Ask,
    /// A script chose the options at these places.
    Scripted(Vec<usize>),
    /// The answer for the case that nobody can be asked.
    Fallback(Vec<usize>),
}

/// The choices that are places of options.
pub open spec fn valid_choices(choices: Seq<usize>, options: int) -> Seq<usize> {
    choices.filter(|i: usize| i < options)
}

fn keep_valid(choices: &Vec<usize>, options: usize) -> (r: Vec<usize>)
    ensures
        r@ == valid_choices(choices@, options as int),
{
    let ghost keep = |i: usize| i < options as int;
    let mut out: Vec<usize> = Vec::new();
    let mut i: usize = 0;
    proof {
        reveal(Seq::filter);
        assert(choices@.take(0).filter(keep) =~= Seq::<usize>::empty());
    }
    while i < choices.len()
        invariant
            i <= choices@.len(),
            keep == (|i: usize| i < options as int),
            out@ == choices@.take(i as int).filter(keep),
        decreases choices@.len() - i,
    {
        proof {
            crate::stack::lemma_filter_next(choices@, i as int, keep);
        }
        if choices[i] < options {
            out.push(choices[i]);
        }
        i += 1;
    }
    assert(choices@.take(choices@.len() as int) =~= choices@);
    out
}

/// Settles a question for any number of `options`, which are named by their places.
pub fn prompt_multi_select(
    mode: &Interaction,
    message: &str,
    options: usize,
    fallback: Fallback<Vec<usize>>,
) -> (r: Result<MultiSelection, PromptError>)
    ensures
        match *mode {
            Interaction::Interactive => r matches Ok(MultiSelection::Ask),
            Interaction::Scripted(a) => r matches Ok(MultiSelection::Scripted(v)) && v@
                == valid_choices(a.multi_selections@, options as int),
            Interaction::NonInteractive { .. } => match fallback {
                Fallback::Default(v) => r == Ok::<_, PromptError>(MultiSelection::Fallback(v)),
                Fallback::Require(hint) => r matches Err(PromptError::InputRequired(e)) && e.0@
                    == message@ + " "@ + hint@,
            },
        },
{
    match mode {
        Interaction::Interactive => Ok(MultiSelection::Ask),
        Interaction::Scripted(answers) => Ok(
            MultiSelection::Scripted(keep_valid(&answers.multi_selections, options)),
        ),
        Interaction::NonInteractive { .. } => match fallback {
            Fallback::Default(v) => Ok(MultiSelection::Fallback(v)),
            Fallback::Require(hint) => Err(
                PromptError::InputRequired(input_required(cat3(message, " ", hint))),
            ),
        },
    }
}

/// How a question for yes or no is settled.
#[derive(Debug, Clone, Copy, PartialEq, Eq, Structural)]
pub enum Confirmation {
    /// A person is to answer; the default is no.
    Ask,
    /// `--yes` was given.
    Assumed,
    /// The answer for the case that nobody can be asked.
    Fallback(bool),
}

/// Settles a question for yes or no.
pub fn prompt_confirm(mode: &Interaction, message: &str, fallback: Fallback<bool>) -> (r: Result<
    Confirmation,
    PromptError,
>)
    ensures
        if *mode is Interactive {
            r == Ok::<_, PromptError>(Confirmation::Ask)
        } else if mode.says_yes() {
            r == Ok::<_, PromptError>(Confirmation::Assumed)
        } else {
            match fallback {
                Fallback::Default(v) => r == Ok::<_, PromptError>(Confirmation::Fallback(v)),
                Fallback::Require(hint) => r matches Err(PromptError::InputRequired(e)) && e.0@
                    == message@ + " "@ + hint@,
            }
        },
{
    if mode.is_interactive() {
        return Ok(Confirmation::Ask);
    }
    if mode.assume_yes() {
        return Ok(Confirmation::Assumed);
    }
    match fallback {
        Fallback::Default(v) => Ok(Confirmation::Fallback(v)),
        Fallback::Require(hint) => Err(
            PromptError::InputRequired(input_required(cat3(message, " ", hint))),
        ),
    }
}

/// A script only ever chooses an option that there is.
pub proof fn law_scripted_choice_is_an_option(mode: Interaction)
    requires
        !(mode is Interactive),
    ensures
        forall|options: int| #[trigger]
            scripted_choice(mode, options) is Some ==> mode is Scripted && 0 <= scripted_choice(
                mode,
                options,
            )->0 < options,
{
}

/// A script chooses what it has at its place, where it goes that far and there is such an option.
pub proof fn law_script_chooses_what_it_says(a: ScriptedAnswers, options: int, choice: int)
    ensures
        scripted_choice(Interaction::Scripted(a), options) == Some(choice) <==> a.selection_cursor
            < a.selections@.len() && choice == a.selections@[a.selection_cursor as int] && choice
            < options,
{
}

/// Of the choices of a script those count that are options, in its order.
pub proof fn law_choices_are_options(choices: Seq<usize>, options: int)
    ensures
        valid_choices(choices, options) == chosen(
            choices.len() as int,
            |k: int| choices[k] < options,
            |k: int| choices[k],
        ),
{
    let keep = |i: usize| i < options;
    lemma_filter_is_chosen(choices, choices.len() as int, keep);
    lemma_chosen_same(
        choices.len() as int,
        |k: int| keep(choices[k]),
        |k: int| choices[k],
        |k: int| choices[k] < options,
        |k: int| choices[k],
    );
}

/// A script that has answered goes on with the next of the same answers.
pub proof fn law_script_goes_on(a: ScriptedAnswers, b: ScriptedAnswers)
    requires
        script_moved(Interaction::Scripted(a), Interaction::Scripted(b)),
        a.selection_cursor < usize::MAX,
    ensures
        b.selection_cursor == a.selection_cursor + 1,
        b.selections == a.selections,
        b.single_selection == a.single_selection,
        b.multi_selections == a.multi_selections,
        b.pr_body_action == a.pr_body_action,
        b.pr_edit_title == a.pr_edit_title,
        b.assume_yes == a.assume_yes,
{
}

} // verus!
