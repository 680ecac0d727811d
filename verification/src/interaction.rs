//! Whether questions are put to the user, answered by a script, or not asked at all.

use crate::lists::{chosen, lemma_chosen_next, lemma_chosen_none};
use crate::text::{opt_text, parse_usize, same, split_char, split_on, strs, trim, trim_of, usize_of};
use vstd::prelude::*;

verus! {

/// Answers that a script gives in place of the user.
#[derive(Debug)]
pub struct ScriptedAnswers {
    /// The choices for single selections, in the order in which they are asked for.
    pub selections: Vec<usize>,
    /// How many of them have been asked for.
    pub selection_cursor: usize,
    /// The choice of the commit to amend.
    pub single_selection: Option<usize>,
    /// The choices for a selection of several.
    pub multi_selections: Vec<usize>,
    /// The choice in the menu for the text of a pull request.
    pub pr_body_action: Option<String>,
    /// The title to give a pull request that is edited.
    pub pr_edit_title: Option<String>,
    /// Whether confirmations are given.
    pub assume_yes: bool,
}

impl Default for ScriptedAnswers {
    fn default() -> (r: ScriptedAnswers)
        ensures
            r.selections@.len() == 0,
            r.selection_cursor == 0,
            r.single_selection is None,
            r.multi_selections@.len() == 0,
            r.pr_body_action is None,
            r.pr_edit_title is None,
            !r.assume_yes,
    {
        ScriptedAnswers {
            selections: Vec::new(),
            selection_cursor: 0,
            single_selection: None,
            multi_selections: Vec::new(),
            pr_body_action: None,
            pr_edit_title: None,
            assume_yes: false,
        }
    }
}

/// How the program treats questions.
#[derive(Debug)]
pub enum Interaction {
    /// A person answers them.
    Interactive,
    /// None are asked. A question with a safe answer gets it; any other is an error.
    NonInteractive { assume_yes: bool },
    /// A script answers them.
    Scripted(ScriptedAnswers),
}

/// A question needed an answer that nobody could give.
#[derive(Debug)]
pub struct InputRequired(pub String);

impl InputRequired {
    pub fn message(&self) -> (r: String)
        ensures
            r@ == self.0@,
    {
        self.0.clone()
    }
}

/// The error of a question that nobody could answer.
pub fn input_required(message: String) -> (r: InputRequired)
    ensures
        r.0 == message,
{
    InputRequired(message)
}

impl Interaction {
    /// Whether a person can be asked.
    pub fn is_interactive(&self) -> (r: bool)
        ensures
            r == (*self is Interactive),
    {
        match self {
            Interaction::Interactive => true,
            _ => false,
        }
    }

    pub open spec fn says_yes(self) -> bool {
        match self {
            Interaction::NonInteractive { assume_yes } => assume_yes,
            Interaction::Scripted(answers) => answers.assume_yes,
            Interaction::Interactive => false,
        }
    }

    /// Whether confirmations are given without asking.
    pub fn assume_yes(&self) -> (r: bool)
        ensures
            r == self.says_yes(),
    {
        match self {
            Interaction::NonInteractive { assume_yes } => *assume_yes,
            Interaction::Scripted(answers) => answers.assume_yes,
            Interaction::Interactive => false,
        }
    }

    /// The script, where there is one.
    pub fn scripted(&self) -> (r: Option<&ScriptedAnswers>)
        ensures
            match r {
                Some(a) => *self == Interaction::Scripted(*a),
                None => !(*self is Scripted),
            },
    {
        match self {
            Interaction::Scripted(answers) => Some(answers),
            _ => None,
        }
    }
}

/// The numbers in a list with commas; what is no number is passed over.
pub open spec fn index_list(parts: Seq<Seq<char>>) -> Seq<nat>
    decreases parts.len(),
{
    if parts.len() == 0 {
        Seq::empty()
    } else {
        let before = index_list(parts.drop_last());
        match usize_of(trim_of(parts.last())) {
            Some(n) => before.push(n),
            None => before,
        }
    }
}

/// The numbers of a sequence of machine integers.
pub open spec fn nats(v: Seq<usize>) -> Seq<nat> {
    Seq::new(v.len(), |i: int| v[i] as nat)
}

/// Reads a list of numbers with commas between them.
pub fn parse_index_list(value: &str) -> (r: Vec<usize>)
    ensures
        nats(r@) == index_list(split_on(value@, ',')),
{
    let parts = split_char(value, ',');
    let ghost all = strs(parts@);
    let mut out: Vec<usize> = Vec::new();
    let mut i: usize = 0;
    assert(all.take(0) =~= Seq::<Seq<char>>::empty());
    assert(nats(out@) =~= Seq::<nat>::empty());
    while i < parts.len()
        invariant
            i <= parts@.len(),
            all == strs(parts@),
            nats(out@) == index_list(all.take(i as int)),
        decreases parts@.len() - i,
    {
        proof {
            assert(all.take(i + 1).drop_last() =~= all.take(i as int));
            assert(all.take(i + 1).last() == parts@[i as int]@);
        }
        let ghost before = out@;
        if let Some(n) = parse_usize(trim(parts[i].as_str()).as_str()) {
            out.push(n);
            assert(nats(out@) =~= nats(before).push(n as nat));
        }
        i += 1;
    }
    assert(all.take(all.len() as int) =~= all);
    out
}

/// The numbers of an optional list.
pub open spec fn opt_index_list(value: Option<Seq<char>>) -> Seq<nat> {
    match value {
        Some(v) => index_list(split_on(v, ',')),
        None => Seq::empty(),
    }
}

impl ScriptedAnswers {
    /// The script that the settings of a test give; none where they give no answer at all.
    pub fn from_values(
        selections: Option<&str>,
        selection: Option<&str>,
        multi_selections: Option<&str>,
        pr_body_action: Option<String>,
        pr_edit_title: Option<String>,
    ) -> (r: Option<ScriptedAnswers>)
        ensures
            ({
                let several = opt_index_list(opt_text(selections));
                let multi = opt_index_list(opt_text(multi_selections));
                let one = match selection {
                    Some(s) => usize_of(trim_of(s@)),
                    None => None,
                };
                let any = several.len() > 0 || one is Some || multi.len() > 0
                    || pr_body_action is Some || pr_edit_title is Some;
                match r {
                    Some(a) => {
                        &&& any
                        &&& nats(a.selections@) == several
                        &&& a.selection_cursor == 0
                        &&& match a.single_selection {
                            Some(n) => one == Some(n as nat),
                            None => one is None,
                        }
                        &&& nats(a.multi_selections@) == multi
                        &&& a.pr_body_action == pr_body_action
                        &&& a.pr_edit_title == pr_edit_title
                        &&& !a.assume_yes
                    },
                    None => !any,
                }
            }),
    {
        let several = match selections {
            Some(v) => parse_index_list(v),
            None => Vec::new(),
        };
        let one = match selection {
            Some(s) => parse_usize(trim(s).as_str()),
            None => None,
        };
        let multi = match multi_selections {
            Some(v) => parse_index_list(v),
            None => Vec::new(),
        };
        proof {
            assert(nats(several@).len() == several@.len());
            assert(nats(multi@).len() == multi@.len());
            if selections is None {
                assert(nats(several@) =~= Seq::<nat>::empty());
            }
            if multi_selections is None {
                assert(nats(multi@) =~= Seq::<nat>::empty());
            }
        }
        if several.len() > 0 || one.is_some() || multi.len() > 0 || pr_body_action.is_some()
            || pr_edit_title.is_some() {
            Some(
                ScriptedAnswers {
                    selections: several,
                    selection_cursor: 0,
                    single_selection: one,
                    multi_selections: multi,
                    pr_body_action,
                    pr_edit_title,
                    assume_yes: false,
                },
            )
        } else {
            None
        }
    }

    /// The choice for the next single selection, where the script goes that far.
    pub fn next_selection(&mut self) -> (r: Option<usize>)
        ensures
            r == if old(self).selection_cursor < old(self).selections@.len() {
                Some(old(self).selections@[old(self).selection_cursor as int])
            } else {
                None
            },
            final(self).selection_cursor == if old(self).selection_cursor < usize::MAX {
                old(self).selection_cursor + 1
            } else {
                0
            },
            final(self).selections == old(self).selections,
            final(self).single_selection == old(self).single_selection,
            final(self).multi_selections == old(self).multi_selections,
            final(self).pr_body_action == old(self).pr_body_action,
            final(self).pr_edit_title == old(self).pr_edit_title,
            final(self).assume_yes == old(self).assume_yes,
    {
        let i: usize = self.selection_cursor;
        self.selection_cursor = i.wrapping_add(1);
        if i < self.selections.len() {
            Some(self.selections[i])
        } else {
            None
        }
    }

    pub fn single_selection(&self) -> (r: Option<usize>)
        ensures
            r == self.single_selection,
    {
        self.single_selection
    }

    pub fn multi_selections(&self) -> (r: &Vec<usize>)
        ensures
            *r == self.multi_selections,
    {
        &self.multi_selections
    }

    pub fn pr_body_action(&self) -> (r: Option<&str>)
        ensures
            opt_text(r) == crate::text::opt_string(self.pr_body_action),
    {
        match &self.pr_body_action {
            Some(s) => Some(s.as_str()),
            None => None,
        }
    }

    pub fn pr_edit_title(&self) -> (r: Option<&str>)
        ensures
            opt_text(r) == crate::text::opt_string(self.pr_edit_title),
    {
        match &self.pr_edit_title {
            Some(s) => Some(s.as_str()),
            None => None,
        }
    }
}

/// What a setting for interactivity asks for.
pub open spec fn forced_mode(setting: Option<Seq<char>>) -> Option<bool> {
    match setting {
        Some(v) => if v == "1"@ || v == "true"@ {
            Some(true)
        } else if v == "0"@ || v == "false"@ {
            Some(false)
        } else {
            None
        },
        None => None,
    }
}

/// Settles how questions are treated. A script comes before the flags, the flags before the
/// setting, and the setting before what the terminal says.
pub fn resolve(
    scripted: Option<ScriptedAnswers>,
    no_interactive: bool,
    yes: bool,
    setting: Option<&str>,
    stdin_is_terminal: bool,
    stdout_is_terminal: bool,
) -> (r: Interaction)
    ensures
        match scripted {
            Some(a) => r matches Interaction::Scripted(b) && b.assume_yes == yes && b.selections
                == a.selections && b.selection_cursor == a.selection_cursor && b.single_selection
                == a.single_selection && b.multi_selections == a.multi_selections
                && b.pr_body_action == a.pr_body_action && b.pr_edit_title == a.pr_edit_title,
            None => if yes || no_interactive {
                r == (Interaction::NonInteractive { assume_yes: yes })
            } else {
                match forced_mode(opt_text(setting)) {
                    Some(on) => r == if on {
                        Interaction::Interactive
                    } else {
                        Interaction::NonInteractive { assume_yes: false }
                    },
                    None => r == if stdin_is_terminal && stdout_is_terminal {
                        Interaction::Interactive
                    } else {
                        Interaction::NonInteractive { assume_yes: false }
                    },
                }
            },
        },
{
    if let Some(mut answers) = scripted {
        answers.assume_yes = yes;
        return Interaction::Scripted(answers);
    }
    if yes || no_interactive {
        return Interaction::NonInteractive { assume_yes: yes };
    }
    if let Some(v) = setting {
        if same(v, "1") || same(v, "true") {
            return Interaction::Interactive;
        }
        if same(v, "0") || same(v, "false") {
            return Interaction::NonInteractive { assume_yes: false };
        }
    }
    if stdin_is_terminal && stdout_is_terminal {
        Interaction::Interactive
    } else {
        Interaction::NonInteractive { assume_yes: false }
    }
}

/// The numbers of a list are those of its parts that are numbers, in order.
pub proof fn law_numbers_of_a_list(parts: Seq<Seq<char>>, n: int)
    requires
        0 <= n <= parts.len(),
    ensures
        index_list(parts.take(n)) == chosen(
            n,
            |k: int| usize_of(trim_of(parts[k])) is Some,
            |k: int| usize_of(trim_of(parts[k]))->0,
        ),
    decreases n,
{
    let keep = |k: int| usize_of(trim_of(parts[k])) is Some;
    let give = |k: int| usize_of(trim_of(parts[k]))->0;
    if n > 0 {
        law_numbers_of_a_list(parts, n - 1);
        lemma_chosen_next(n - 1, keep, give);
        assert(parts.take(n).drop_last() =~= parts.take(n - 1));
        assert(parts.take(n).last() == parts[n - 1]);
    } else {
        lemma_chosen_none(keep, give);
    }
}

/// The setting asks for questions with `1` and `true`, forbids them with `0` and `false`, and says
/// nothing otherwise.
pub proof fn law_setting_for_questions(setting: Option<Seq<char>>)
    ensures
        forced_mode(setting) == Some(true) <==> setting == Some("1"@) || setting == Some("true"@),
        forced_mode(setting) == Some(false) <==> setting == Some("0"@) || setting == Some(
            "false"@,
        ),
{
    reveal_strlit("1");
    reveal_strlit("0");
    reveal_strlit("true");
    reveal_strlit("false");
    assert("1"@[0] == '1' && "0"@[0] == '0' && "true"@[0] == 't' && "false"@[0] == 'f');
}

/// Nobody who can be asked is taken to have said yes.
pub proof fn law_yes_is_never_assumed_of_a_person(mode: Interaction)
    ensures
        mode is Interactive ==> !mode.says_yes(),
        mode matches Interaction::NonInteractive { assume_yes } ==> mode.says_yes() == assume_yes,
        mode matches Interaction::Scripted(a) ==> mode.says_yes() == a.assume_yes,
{
}

} // verus!
