use vstd::prelude::*;

use crate::categories::{
    category_order, ordered_category_list, other_name, register, register_category,
    unnamed_category, unnamed_name,
};
use crate::text::{decimal, join_words, parse_entry_line, push_decimal, words, EntryLine};

verus! {

/// Which of the two totals of a purchase.
#[derive(Clone, Copy, Debug, PartialEq, Eq, Structural)]
pub enum Currency {
    /// The total on the bank statement, in the home currency.
    Domestic,
    /// The total on the receipt, in the currency of the country of purchase.
    Foreign,
}

/// Where a message goes.
#[derive(Clone, Copy, Debug, PartialEq, Eq, Structural)]
pub enum Stream {
    /// Standard output.
    Output,
    /// Standard error.
    Error,
}

/// What the surroundings tell the session: the outcome of the action that the
/// session asked for last.
#[derive(Debug, PartialEq, Eq)]
pub enum Event {
    /// The program starts; which totals the command line gave.
    Started { domestic_given: bool, foreign_given: bool },
    /// A line was read for the total asked for; whether it held a number.
    TotalRead { valid: bool },
    /// A line of category input was read.
    LineRead { line: String },
    /// The subtotal text was read: whether it is a number, and whether it is
    /// more than what remains to be assigned.
    SubtotalChecked { parsed: bool, exceeds: bool },
    /// The subtotal was assigned; whether nothing remains to be assigned now.
    Assigned { all_assigned: bool },
    /// The last action, one without an outcome, was carried out.
    Done,
}

/// What the session asks the surroundings to do next, and what it expects back.
#[derive(Debug, PartialEq, Eq)]
pub enum Action {
    /// Print `prompt`, read a line and tell whether it holds a number, which is
    /// then the `currency` total (answered by `TotalRead`).
    AskTotal { currency: Currency, prompt: String },
    /// Print the subtotal prompt with the amount that remains, and read a line
    /// (answered by `LineRead`).
    AskSubtotal,
    /// Read `text` as a number and compare it with the amount that remains
    /// (answered by `SubtotalChecked`).
    CheckSubtotal { text: String },
    /// Print `message` on `stream` (answered by `Done`).
    Report { message: String, stream: Stream },
    /// Add the checked subtotal to `category` and take it off the amount that
    /// remains (answered by `Assigned`).
    Assign { category: String },
    /// Add all that remains to `category` (answered by `Done`).
    AssignRemainder { category: String },
    /// Print the table of categories, one row each, in this order (answered by `Done`).
    PrintTable { categories: Vec<String> },
    /// The program is over.
    Exit,
}

/// The contents of an `Event`.
pub enum EventModel {
    Started { domestic_given: bool, foreign_given: bool },
    TotalRead { valid: bool },
    LineRead { line: Seq<char> },
    SubtotalChecked { parsed: bool, exceeds: bool },
    Assigned { all_assigned: bool },
    Done,
}

/// The contents of an `Action`.
pub enum ActionModel {
    AskTotal { currency: Currency, prompt: Seq<char> },
    AskSubtotal,
    CheckSubtotal { text: Seq<char> },
    Report { message: Seq<char>, stream: Stream },
    Assign { category: Seq<char> },
    AssignRemainder { category: Seq<char> },
    PrintTable { categories: Seq<Seq<char>> },
    Exit,
}

impl View for Event {
    type V = EventModel;

    open spec fn view(&self) -> EventModel {
        match self {
            Event::Started { domestic_given, foreign_given } => EventModel::Started {
                domestic_given: *domestic_given,
                foreign_given: *foreign_given,
            },
            Event::TotalRead { valid } => EventModel::TotalRead { valid: *valid },
            Event::LineRead { line } => EventModel::LineRead { line: line@ },
            Event::SubtotalChecked { parsed, exceeds } => EventModel::SubtotalChecked {
                parsed: *parsed,
                exceeds: *exceeds,
            },
            Event::Assigned { all_assigned } => EventModel::Assigned { all_assigned: *all_assigned },
            Event::Done => EventModel::Done,
        }
    }
}

impl View for Action {
    type V = ActionModel;

    open spec fn view(&self) -> ActionModel {
        match self {
            Action::AskTotal { currency, prompt } => ActionModel::AskTotal {
                currency: *currency,
                prompt: prompt@,
            },
            Action::AskSubtotal => ActionModel::AskSubtotal,
            Action::CheckSubtotal { text } => ActionModel::CheckSubtotal { text: text@ },
            Action::Report { message, stream } => ActionModel::Report {
                message: message@,
                stream: *stream,
            },
            Action::Assign { category } => ActionModel::Assign { category: category@ },
            Action::AssignRemainder { category } => ActionModel::AssignRemainder {
                category: category@,
            },
            Action::PrintTable { categories } => ActionModel::PrintTable {
                categories: categories.deep_view(),
            },
            Action::Exit => ActionModel::Exit,
        }
    }
}

/// What the session waits for.
enum Phase {
    Starting,
    AwaitTotal { currency: Currency, foreign_given: bool },
    AwaitLine,
    AwaitCheck { name: String },
    AwaitReport,
    AwaitAssigned,
    AwaitRemainder,
    AwaitTable,
    Finished,
}

/// What the session waits for: the contents of its phase.
pub enum PhaseModel {
    /// The program has not started.
    Starting,
    /// A total was asked for; `foreign_given` tells whether the command line gave the foreign one.
    AwaitTotal { currency: Currency, foreign_given: bool },
    /// A line of category input was asked for.
    AwaitLine,
    /// The subtotal of a line was handed out to be checked; `name` is the
    /// category name that the line gave (empty when it gave none).
    AwaitCheck { name: Seq<char> },
    /// A message was handed out to be printed.
    AwaitReport,
    /// A subtotal was handed out to be assigned.
    AwaitAssigned,
    /// The remainder was handed out to be assigned to `Other`.
    AwaitRemainder,
    /// The table was handed out to be printed.
    AwaitTable,
    /// The program is over.
    Finished,
}

/// The state of a run of the program, apart from the amounts of money.
pub struct SessionModel {
    pub phase: PhaseModel,
    /// How many categories were entered without a name.
    pub unnamed_count: u64,
    /// The names of the categories that got money, in the order of their first entry.
    pub categories: Seq<Seq<char>>,
}

/// A run of the program: it decides what happens next from what the
/// surroundings report, and keeps the categories that money was assigned to.
pub struct Session {
    phase: Phase,
    unnamed_count: u64,
    categories: Vec<String>,
}

impl View for Session {
    type V = SessionModel;

    closed spec fn view(&self) -> SessionModel {
        SessionModel {
            phase: match &self.phase {
                Phase::Starting => PhaseModel::Starting,
                Phase::AwaitTotal { currency, foreign_given } => PhaseModel::AwaitTotal {
                    currency: *currency,
                    foreign_given: *foreign_given,
                },
                Phase::AwaitLine => PhaseModel::AwaitLine,
                Phase::AwaitCheck { name } => PhaseModel::AwaitCheck { name: name@ },
                Phase::AwaitReport => PhaseModel::AwaitReport,
                Phase::AwaitAssigned => PhaseModel::AwaitAssigned,
                Phase::AwaitRemainder => PhaseModel::AwaitRemainder,
                Phase::AwaitTable => PhaseModel::AwaitTable,
                Phase::Finished => PhaseModel::Finished,
            },
            unnamed_count: self.unnamed_count,
            categories: self.categories.deep_view(),
        }
    }
}

/// The prompt that asks for a total.
pub open spec fn total_prompt(currency: Currency) -> Seq<char> {
    match currency {
        Currency::Domestic => "Please enter domestic total: "@,
        Currency::Foreign => "Please enter foreign total: "@,
    }
}

/// The prompt that asks again for a total after a line that held no number.
pub open spec fn retry_prompt() -> Seq<char> {
    "Please try again. Enter a valid number: "@
}

/// The message for a line whose last word is not a number.
pub open spec fn misplaced_subtotal_message() -> Seq<char> {
    "Please enter the subtotal as the last element on the line, preceeded by a space. Try again."@
}

/// The message for a subtotal larger than what remains.
pub open spec fn excess_message() -> Seq<char> {
    "The entered subtotal exceeds the remaining total. Try again or just press enter to assign the entire remaining total to a category named Other."@
}

/// The message for an unnamed entry when no number is left for another unnamed category.
pub open spec fn unnamed_limit_message() -> Seq<char> {
    "A maximum of "@ + decimal(u64::MAX as nat)
        + " unnamed categories are supported. Please name category explicitly. Try again."@
}

impl SessionModel {
    /// This state with its phase replaced by `phase`.
    pub open spec fn with_phase(self, phase: PhaseModel) -> SessionModel {
        SessionModel { phase, ..self }
    }

    /// The table of this state's categories.
    pub open spec fn table(self) -> ActionModel {
        ActionModel::PrintTable { categories: self.categories.sort_by(category_order()) }
    }
}

/// The state after a session in state `s` takes `event`, and the action it asks for.
/// An event that does not answer the last action, and any event once the
/// program is over, leaves the state as it is and ends the program.
pub open spec fn next(s: SessionModel, event: EventModel) -> (SessionModel, ActionModel) {
    match (s.phase, event) {
        (PhaseModel::Starting, EventModel::Started { domestic_given, foreign_given }) => {
            if !domestic_given {
                (
                    s.with_phase(
                        PhaseModel::AwaitTotal { currency: Currency::Domestic, foreign_given },
                    ),
                    ActionModel::AskTotal {
                        currency: Currency::Domestic,
                        prompt: total_prompt(Currency::Domestic),
                    },
                )
            } else if !foreign_given {
                (
                    s.with_phase(
                        PhaseModel::AwaitTotal { currency: Currency::Foreign, foreign_given },
                    ),
                    ActionModel::AskTotal {
                        currency: Currency::Foreign,
                        prompt: total_prompt(Currency::Foreign),
                    },
                )
            } else {
                (s.with_phase(PhaseModel::AwaitLine), ActionModel::AskSubtotal)
            }
        },
        (PhaseModel::AwaitTotal { currency, foreign_given }, EventModel::TotalRead { valid }) => {
            if !valid {
                (s, ActionModel::AskTotal { currency, prompt: retry_prompt() })
            } else if currency == Currency::Domestic && !foreign_given {
                (
                    s.with_phase(
                        PhaseModel::AwaitTotal { currency: Currency::Foreign, foreign_given },
                    ),
                    ActionModel::AskTotal {
                        currency: Currency::Foreign,
                        prompt: total_prompt(Currency::Foreign),
                    },
                )
            } else {
                (s.with_phase(PhaseModel::AwaitLine), ActionModel::AskSubtotal)
            }
        },
        (PhaseModel::AwaitLine, EventModel::LineRead { line }) => {
            let ws = words(line);
            if ws.len() == 0 {
                (
                    SessionModel {
                        phase: PhaseModel::AwaitRemainder,
                        categories: register(s.categories, other_name()),
                        ..s
                    },
                    ActionModel::AssignRemainder { category: other_name() },
                )
            } else {
                (
                    s.with_phase(PhaseModel::AwaitCheck { name: join_words(ws.drop_last()) }),
                    ActionModel::CheckSubtotal { text: ws.last() },
                )
            }
        },
        (PhaseModel::AwaitCheck { name }, EventModel::SubtotalChecked { parsed, exceeds }) => {
            if !parsed {
                (
                    s.with_phase(PhaseModel::AwaitReport),
                    ActionModel::Report {
                        message: misplaced_subtotal_message(),
                        stream: Stream::Error,
                    },
                )
            } else if exceeds {
                (
                    s.with_phase(PhaseModel::AwaitReport),
                    ActionModel::Report { message: excess_message(), stream: Stream::Error },
                )
            } else if name.len() == 0 && s.unnamed_count == u64::MAX {
                (
                    s.with_phase(PhaseModel::AwaitReport),
                    ActionModel::Report { message: unnamed_limit_message(), stream: Stream::Output },
                )
            } else if name.len() == 0 {
                let count = (s.unnamed_count + 1) as u64;
                let category = unnamed_name(count as nat);
                (
                    SessionModel {
                        phase: PhaseModel::AwaitAssigned,
                        unnamed_count: count,
                        categories: register(s.categories, category),
                    },
                    ActionModel::Assign { category },
                )
            } else {
                (
                    SessionModel {
                        phase: PhaseModel::AwaitAssigned,
                        categories: register(s.categories, name),
                        ..s
                    },
                    ActionModel::Assign { category: name },
                )
            }
        },
        (PhaseModel::AwaitReport, EventModel::Done) => (
            s.with_phase(PhaseModel::AwaitLine),
            ActionModel::AskSubtotal,
        ),
        (PhaseModel::AwaitAssigned, EventModel::Assigned { all_assigned }) => {
            if all_assigned {
                (s.with_phase(PhaseModel::AwaitTable), s.table())
            } else {
                (s.with_phase(PhaseModel::AwaitLine), ActionModel::AskSubtotal)
            }
        },
        (PhaseModel::AwaitRemainder, EventModel::Done) => (
            s.with_phase(PhaseModel::AwaitTable),
            s.table(),
        ),
        (PhaseModel::AwaitTable, EventModel::Done) => (
            s.with_phase(PhaseModel::Finished),
            ActionModel::Exit,
        ),
        _ => (s, ActionModel::Exit),
    }
}

impl Session {
    /// The session's invariant: no category is there twice.
    pub open spec fn wf(&self) -> bool {
        self@.categories.no_duplicates()
    }

    /// A session before the program starts, with no category yet.
    pub fn new() -> (s: Session)
        ensures
            s.wf(),
            s@ == (SessionModel {
                phase: PhaseModel::Starting,
                unnamed_count: 0,
                categories: Seq::empty(),
            }),
    {
        let s = Session { phase: Phase::Starting, unnamed_count: 0, categories: Vec::new() };
        assert(s@.categories =~= Seq::<Seq<char>>::empty());
        s
    }
}

fn total_prompt_text(currency: Currency) -> (t: String)
    ensures
        t@ == total_prompt(currency),
{
    match currency {
        Currency::Domestic => String::from_str("Please enter domestic total: "),
        Currency::Foreign => String::from_str("Please enter foreign total: "),
    }
}

fn unnamed_limit_text() -> (t: String)
    ensures
        t@ == unnamed_limit_message(),
{
    let mut t = String::from_str("A maximum of ");
    push_decimal(&mut t, u64::MAX);
    t.append(" unnamed categories are supported. Please name category explicitly. Try again.");
    t
}

/// Takes the next event of the program and tells what to do next. The
/// totals come from the command line or are asked for until a line holds a
/// number; then each line of category input is split into a category name
/// and a subtotal, a line without words gives all that remains to `Other`,
/// an entry without a name gets the next `Unnamed category n`, and once no
/// money remains the table of categories is printed in table order. An event
/// that does not answer the last action changes nothing and ends the program.
pub fn run(session: &mut Session, event: Event) -> (action: Action)
    requires
        old(session).wf(),
    ensures
        final(session).wf(),
        (final(session)@, action@) == next(old(session)@, event@),
{
    let mut phase = Phase::Finished;
    std::mem::swap(&mut phase, &mut session.phase);
    match phase {
        Phase::Starting => {
            if let Event::Started { domestic_given, foreign_given } = event {
                if !domestic_given {
                    session.phase = Phase::AwaitTotal { currency: Currency::Domestic, foreign_given };
                    Action::AskTotal {
                        currency: Currency::Domestic,
                        prompt: total_prompt_text(Currency::Domestic),
                    }
                } else if !foreign_given {
                    session.phase = Phase::AwaitTotal { currency: Currency::Foreign, foreign_given };
                    Action::AskTotal {
                        currency: Currency::Foreign,
                        prompt: total_prompt_text(Currency::Foreign),
                    }
                } else {
                    session.phase = Phase::AwaitLine;
                    Action::AskSubtotal
                }
            } else {
                session.phase = Phase::Starting;
                Action::Exit
            }
        },
        Phase::AwaitTotal { currency, foreign_given } => {
            if let Event::TotalRead { valid } = event {
                if !valid {
                    session.phase = Phase::AwaitTotal { currency, foreign_given };
                    Action::AskTotal {
                        currency,
                        prompt: String::from_str("Please try again. Enter a valid number: "),
                    }
                } else if currency == Currency::Domestic && !foreign_given {
                    session.phase = Phase::AwaitTotal { currency: Currency::Foreign, foreign_given };
                    Action::AskTotal {
                        currency: Currency::Foreign,
                        prompt: total_prompt_text(Currency::Foreign),
                    }
                } else {
                    session.phase = Phase::AwaitLine;
                    Action::AskSubtotal
                }
            } else {
                session.phase = Phase::AwaitTotal { currency, foreign_given };
                Action::Exit
            }
        },
        Phase::AwaitLine => {
            if let Event::LineRead { line } = event {
                match parse_entry_line(line.as_str()) {
                    EntryLine::Blank => {
                        let other = String::from_str("Other");
                        register_category(&mut session.categories, &other);
                        session.phase = Phase::AwaitRemainder;
                        Action::AssignRemainder { category: other }
                    },
                    EntryLine::Entry { name, subtotal } => {
                        session.phase = Phase::AwaitCheck { name };
                        Action::CheckSubtotal { text: subtotal }
                    },
                }
            } else {
                session.phase = Phase::AwaitLine;
                Action::Exit
            }
        },
        Phase::AwaitCheck { name } => {
            if let Event::SubtotalChecked { parsed, exceeds } = event {
                if !parsed {
                    session.phase = Phase::AwaitReport;
                    Action::Report {
                        message: String::from_str(
                            "Please enter the subtotal as the last element on the line, preceeded by a space. Try again.",
                        ),
                        stream: Stream::Error,
                    }
                } else if exceeds {
                    session.phase = Phase::AwaitReport;
                    Action::Report {
                        message: String::from_str(
                            "The entered subtotal exceeds the remaining total. Try again or just press enter to assign the entire remaining total to a category named Other.",
                        ),
                        stream: Stream::Error,
                    }
                } else if name.as_str().unicode_len() == 0 {
                    if session.unnamed_count == u64::MAX {
                        session.phase = Phase::AwaitReport;
                        Action::Report { message: unnamed_limit_text(), stream: Stream::Output }
                    } else {
                        session.unnamed_count = session.unnamed_count + 1;
                        let category = unnamed_category(session.unnamed_count);
                        register_category(&mut session.categories, &category);
                        session.phase = Phase::AwaitAssigned;
                        Action::Assign { category }
                    }
                } else {
                    register_category(&mut session.categories, &name);
                    session.phase = Phase::AwaitAssigned;
                    Action::Assign { category: name }
                }
            } else {
                session.phase = Phase::AwaitCheck { name };
                Action::Exit
            }
        },
        Phase::AwaitReport => {
            if let Event::Done = event {
                session.phase = Phase::AwaitLine;
                Action::AskSubtotal
            } else {
                session.phase = Phase::AwaitReport;
                Action::Exit
            }
        },
        Phase::AwaitAssigned => {
            if let Event::Assigned { all_assigned } = event {
                if all_assigned {
                    session.phase = Phase::AwaitTable;
                    Action::PrintTable { categories: ordered_category_list(&session.categories) }
                } else {
                    session.phase = Phase::AwaitLine;
                    Action::AskSubtotal
                }
            } else {
                session.phase = Phase::AwaitAssigned;
                Action::Exit
            }
        },
        Phase::AwaitRemainder => {
            if let Event::Done = event {
                session.phase = Phase::AwaitTable;
                Action::PrintTable { categories: ordered_category_list(&session.categories) }
            } else {
                session.phase = Phase::AwaitRemainder;
                Action::Exit
            }
        },
        Phase::AwaitTable => {
            if let Event::Done = event {
                session.phase = Phase::Finished;
                Action::Exit
            } else {
                session.phase = Phase::AwaitTable;
                Action::Exit
            }
        },
        Phase::Finished => {
            session.phase = Phase::Finished;
            Action::Exit
        },
    }
}

} // verus!
