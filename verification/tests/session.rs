use forex_split::session::{run, Action, Currency, Event, Session, Stream};

fn line(text: &str) -> Event {
    Event::LineRead { line: text.to_string() }
}

fn check(text: &str) -> Action {
    Action::CheckSubtotal { text: text.to_string() }
}

fn assign(category: &str) -> Action {
    Action::Assign { category: category.to_string() }
}

fn table(rows: &[&str]) -> Action {
    Action::PrintTable { categories: rows.iter().map(|s| s.to_string()).collect() }
}

const ACCEPTED: Event = Event::SubtotalChecked { parsed: true, exceeds: false };

/// Runs the session through `steps`, each an event and the action expected back.
fn drive(session: &mut Session, steps: Vec<(Event, Action)>) {
    for (i, (event, expected)) in steps.into_iter().enumerate() {
        let action = run(session, event);
        assert_eq!(action, expected, "step {}", i);
    }
}

fn started() -> Session {
    let mut session = Session::new();
    drive(
        &mut session,
        vec![(Event::Started { domestic_given: true, foreign_given: true }, Action::AskSubtotal)],
    );
    session
}

#[test]
fn named_categories_then_blank_line_assigns_other() {
    let mut session = started();
    drive(
        &mut session,
        vec![
            (line("Alcohol 6.9\n"), check("6.9")),
            (ACCEPTED, assign("Alcohol")),
            (Event::Assigned { all_assigned: false }, Action::AskSubtotal),
            (line("Food 17.5\n"), check("17.5")),
            (ACCEPTED, assign("Food")),
            (Event::Assigned { all_assigned: false }, Action::AskSubtotal),
            (line("\n"), Action::AssignRemainder { category: "Other".to_string() }),
            (Event::Done, table(&["Alcohol", "Food", "Other"])),
            (Event::Done, Action::Exit),
        ],
    );
}

#[test]
fn all_money_assigned_ends_input() {
    let mut session = started();
    drive(
        &mut session,
        vec![
            (line("Alcohol 6.9"), check("6.9")),
            (ACCEPTED, assign("Alcohol")),
            (Event::Assigned { all_assigned: false }, Action::AskSubtotal),
            (line("Food 17.5"), check("17.5")),
            (ACCEPTED, assign("Food")),
            (Event::Assigned { all_assigned: false }, Action::AskSubtotal),
            (line("Tip 2.44"), check("2.44")),
            (ACCEPTED, assign("Tip")),
            (Event::Assigned { all_assigned: true }, table(&["Alcohol", "Food", "Tip"])),
            (Event::Done, Action::Exit),
        ],
    );
}

#[test]
fn missing_foreign_total_is_asked_for() {
    let mut session = Session::new();
    drive(
        &mut session,
        vec![
            (
                Event::Started { domestic_given: true, foreign_given: false },
                Action::AskTotal {
                    currency: Currency::Foreign,
                    prompt: "Please enter foreign total: ".to_string(),
                },
            ),
            (Event::TotalRead { valid: true }, Action::AskSubtotal),
            (line(""), Action::AssignRemainder { category: "Other".to_string() }),
            (Event::Done, table(&["Other"])),
        ],
    );
}

#[test]
fn both_missing_totals_are_asked_for() {
    let mut session = Session::new();
    drive(
        &mut session,
        vec![
            (
                Event::Started { domestic_given: false, foreign_given: false },
                Action::AskTotal {
                    currency: Currency::Domestic,
                    prompt: "Please enter domestic total: ".to_string(),
                },
            ),
            (
                Event::TotalRead { valid: true },
                Action::AskTotal {
                    currency: Currency::Foreign,
                    prompt: "Please enter foreign total: ".to_string(),
                },
            ),
            (Event::TotalRead { valid: true }, Action::AskSubtotal),
        ],
    );
}

#[test]
fn only_missing_domestic_total_is_asked_for() {
    let mut session = Session::new();
    drive(
        &mut session,
        vec![
            (
                Event::Started { domestic_given: false, foreign_given: true },
                Action::AskTotal {
                    currency: Currency::Domestic,
                    prompt: "Please enter domestic total: ".to_string(),
                },
            ),
            (Event::TotalRead { valid: true }, Action::AskSubtotal),
        ],
    );
}

#[test]
fn invalid_total_is_asked_for_again() {
    let mut session = Session::new();
    let retry = Action::AskTotal {
        currency: Currency::Domestic,
        prompt: "Please try again. Enter a valid number: ".to_string(),
    };
    drive(
        &mut session,
        vec![
            (
                Event::Started { domestic_given: false, foreign_given: true },
                Action::AskTotal {
                    currency: Currency::Domestic,
                    prompt: "Please enter domestic total: ".to_string(),
                },
            ),
            (Event::TotalRead { valid: false }, retry),
            (
                Event::TotalRead { valid: false },
                Action::AskTotal {
                    currency: Currency::Domestic,
                    prompt: "Please try again. Enter a valid number: ".to_string(),
                },
            ),
            (Event::TotalRead { valid: true }, Action::AskSubtotal),
        ],
    );
}

#[test]
fn unnamed_categories_are_numbered_in_order() {
    let mut session = started();
    drive(
        &mut session,
        vec![
            (line("6.9"), check("6.9")),
            (ACCEPTED, assign("Unnamed category 1")),
            (Event::Assigned { all_assigned: false }, Action::AskSubtotal),
            (line("17.5"), check("17.5")),
            (ACCEPTED, assign("Unnamed category 2")),
            (Event::Assigned { all_assigned: false }, Action::AskSubtotal),
            (line(""), Action::AssignRemainder { category: "Other".to_string() }),
            (Event::Done, table(&["Unnamed category 1", "Unnamed category 2", "Other"])),
        ],
    );
}

#[test]
fn ten_unnamed_categories_in_numerical_order() {
    let mut session = started();
    let mut rows: Vec<String> = Vec::new();
    for n in 1..=11 {
        drive(
            &mut session,
            vec![
                (line("1.0"), check("1.0")),
                (ACCEPTED, assign(&format!("Unnamed category {}", n))),
                (Event::Assigned { all_assigned: false }, Action::AskSubtotal),
            ],
        );
        rows.push(format!("Unnamed category {}", n));
    }
    drive(
        &mut session,
        vec![(line("Food 2"), check("2")), (ACCEPTED, assign("Food"))],
    );
    let action = run(&mut session, Event::Assigned { all_assigned: true });
    rows.insert(0, "Food".to_string());
    assert_eq!(action, Action::PrintTable { categories: rows });
}

#[test]
fn repeated_named_category_is_one_row() {
    let mut session = started();
    drive(
        &mut session,
        vec![
            (line("Food 9.9"), check("9.9")),
            (ACCEPTED, assign("Food")),
            (Event::Assigned { all_assigned: false }, Action::AskSubtotal),
            (line("Food 7.59"), check("7.59")),
            (ACCEPTED, assign("Food")),
            (Event::Assigned { all_assigned: false }, Action::AskSubtotal),
            (line(""), Action::AssignRemainder { category: "Other".to_string() }),
            (Event::Done, table(&["Food", "Other"])),
        ],
    );
}

#[test]
fn invalid_subtotal_is_reported_and_input_goes_on() {
    let mut session = started();
    drive(
        &mut session,
        vec![
            (line("Alcohol foo"), check("foo")),
            (
                Event::SubtotalChecked { parsed: false, exceeds: false },
                Action::Report {
                    message: "Please enter the subtotal as the last element on the line, preceeded by a space. Try again.".to_string(),
                    stream: Stream::Error,
                },
            ),
            (Event::Done, Action::AskSubtotal),
            (line("Alcohol 6.9"), check("6.9")),
            (ACCEPTED, assign("Alcohol")),
            (Event::Assigned { all_assigned: false }, Action::AskSubtotal),
            (line(""), Action::AssignRemainder { category: "Other".to_string() }),
            (Event::Done, table(&["Alcohol", "Other"])),
        ],
    );
}

#[test]
fn excessive_subtotal_is_reported_and_changes_nothing() {
    let mut session = started();
    drive(
        &mut session,
        vec![
            (line("30"), check("30")),
            (
                Event::SubtotalChecked { parsed: true, exceeds: true },
                Action::Report {
                    message: "The entered subtotal exceeds the remaining total. Try again or just press enter to assign the entire remaining total to a category named Other.".to_string(),
                    stream: Stream::Error,
                },
            ),
            (Event::Done, Action::AskSubtotal),
            (line("3"), check("3")),
            (ACCEPTED, assign("Unnamed category 1")),
            (Event::Assigned { all_assigned: true }, table(&["Unnamed category 1"])),
        ],
    );
}

#[test]
fn finished_session_only_exits() {
    let mut session = started();
    drive(
        &mut session,
        vec![
            (line(""), Action::AssignRemainder { category: "Other".to_string() }),
            (Event::Done, table(&["Other"])),
            (Event::Done, Action::Exit),
            (line("Food 3"), Action::Exit),
            (Event::Done, Action::Exit),
        ],
    );
}

#[test]
fn event_that_answers_nothing_exits_and_changes_nothing() {
    let mut session = started();
    drive(
        &mut session,
        vec![
            (Event::Done, Action::Exit),
            (line("Food 3"), check("3")),
            (ACCEPTED, assign("Food")),
        ],
    );
}

#[test]
fn named_other_entry_shares_the_other_row() {
    let mut session = started();
    drive(
        &mut session,
        vec![
            (line("Other 1"), check("1")),
            (ACCEPTED, assign("Other")),
            (Event::Assigned { all_assigned: false }, Action::AskSubtotal),
            (line("  "), Action::AssignRemainder { category: "Other".to_string() }),
            (Event::Done, table(&["Other"])),
        ],
    );
}
