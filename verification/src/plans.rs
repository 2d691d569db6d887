//! The lifecycle rules of plan documents: an active plan names its next
//! action; a complete plan links its pull request, may name its landed commit,
//! and keeps no active state or unfinished delivery rows.
use vstd::prelude::*;

use crate::strings::{chars_equal, chars_of, concat_chars, debug_quoted, debug_text, push_chars, push_str, string_from_chars};
use crate::text_scan::{
    ascii_lower, ascii_lower_chars, char_views, copy_range, find, find_chars, lines, lines_of,
    split, split_on, starts_with, starts_with_chars, trim, trim_chars, trim_start,
    trim_start_chars, TrimClass,
};

verus! {

/// The trimmed values of the lines that begin with `prefix`, in order.
pub open spec fn field_values(lines: Seq<Seq<char>>, prefix: Seq<char>) -> Seq<Seq<char>>
    decreases lines.len(),
{
    if lines.len() == 0 {
        Seq::empty()
    } else {
        let rest = field_values(lines.drop_last(), prefix);
        let line = lines.last();
        if starts_with(line, prefix) {
            rest.push(trim(line.subrange(prefix.len() as int, line.len() as int), TrimClass::Space))
        } else {
            rest
        }
    }
}

/// The one non-empty value of the field `prefix`, or why there is none.
pub open spec fn field_value(lines: Seq<Seq<char>>, prefix: Seq<char>) -> Result<Seq<char>, Seq<char>> {
    let values = field_values(lines, prefix);
    if values.len() == 1 && values[0].len() > 0 {
        Ok(values[0])
    } else {
        Err("expected exactly one non-empty "@ + prefix + " field"@)
    }
}

/// Some line begins with `prefix`.
pub open spec fn any_starts_with(lines: Seq<Seq<char>>, prefix: Seq<char>) -> bool {
    exists|i: int| 0 <= i < lines.len() && starts_with(#[trigger] lines[i], prefix)
}

pub open spec fn is_digit(c: char) -> bool {
    48 <= (c as u32) <= 57
}

pub open spec fn is_lower_hex(c: char) -> bool {
    is_digit(c) || 97 <= (c as u32) <= 102
}

/// The link to a pull request of the project, up to its number.
pub open spec fn pull_link() -> Seq<char> {
    "](https://github.com/robchristie/polyorama/pull/"@
}

/// The pull request number in a delivery link: what follows the link up to
/// the first `)` after it.
pub open spec fn delivery_number(delivery: Seq<char>) -> Option<Seq<char>> {
    match find(delivery, pull_link()) {
        Some(i) => {
            let rest = delivery.subrange(i + pull_link().len(), delivery.len() as int);
            match find(rest, ")"@) {
                Some(j) => Some(rest.subrange(0, j)),
                None => None,
            }
        },
        None => None,
    }
}

/// A pull request number: digits without a leading zero.
pub open spec fn is_pull_number(number: Seq<char>) -> bool {
    &&& number.len() > 0
    &&& number[0] != '0'
    &&& forall|k: int| 0 <= k < number.len() ==> is_digit(#[trigger] number[k])
}

/// The delivery field links the pull request that delivers the plan.
pub open spec fn delivery_check(lines: Seq<Seq<char>>) -> Result<(), Seq<char>> {
    match field_value(lines, "Delivery:"@) {
        Err(message) => Err(message),
        Ok(delivery) => match delivery_number(delivery) {
            Some(number) => if is_pull_number(number) {
                Ok(())
            } else {
                Err("Delivery must link to the owning Polyorama pull request"@)
            },
            None => Err("Delivery must link to the owning Polyorama pull request"@),
        },
    }
}

/// A full commit ID: forty lowercase hexadecimal digits.
pub open spec fn is_commit_id(commit: Seq<char>) -> bool {
    commit.len() == 40 && forall|k: int| 0 <= k < commit.len() ==> is_lower_hex(#[trigger] commit[k])
}

/// A landed commit, where one is declared, is one full commit ID, with or
/// without backticks.
pub open spec fn landed_check(lines: Seq<Seq<char>>) -> Result<(), Seq<char>> {
    if any_starts_with(lines, "Landed commit:"@) {
        match field_value(lines, "Landed commit:"@) {
            Err(message) => Err(message),
            Ok(commit) => if is_commit_id(trim(commit, TrimClass::Exactly('`'))) {
                Ok(())
            } else {
                Err("Landed commit must be a full lowercase 40-character commit ID"@)
            },
        }
    } else {
        Ok(())
    }
}

/// The first position of `target` in `items` from `k` on.
pub open spec fn position_from(items: Seq<Seq<char>>, target: Seq<char>, k: int) -> Option<int>
    decreases items.len() - k,
{
    if k < 0 || k >= items.len() {
        None
    } else if items[k] == target {
        Some(k)
    } else {
        position_from(items, target, k + 1)
    }
}

/// The cells of a table row: the line without its outer bars, split at bars,
/// each cell trimmed.
pub open spec fn row_cells(normalised: Seq<char>) -> Seq<Seq<char>> {
    split(trim(normalised, TrimClass::Exactly('|')), '|').map_values(
        |cell: Seq<char>| trim(cell, TrimClass::Space),
    )
}

/// A delivery status that a complete plan may keep: a separator cell,
/// `landed`, `complete`, or `complete for ` something.
pub open spec fn finished_status(status: Seq<char>) -> bool {
    ||| (status.len() > 0 && forall|k: int|
        0 <= k < status.len() ==> #[trigger] status[k] == '-' || status[k] == ':')
    ||| status == "landed"@
    ||| status == "complete"@
    ||| starts_with(status, "complete for "@)
}

/// The line, trimmed and in lower case.
pub open spec fn normalised_line(line: Seq<char>) -> Seq<char> {
    ascii_lower(trim(line, TrimClass::Space))
}

/// The line names active state: a current phase or next action heading, a
/// next action field, or an open checklist item.
pub open spec fn retains_active_state(normalised: Seq<char>) -> bool {
    let heading = trim(trim_start(normalised, TrimClass::Exactly('#')), TrimClass::Space);
    ||| heading == "current phase"@
    ||| heading == "next action"@
    ||| starts_with(normalised, "next action:"@)
    ||| starts_with(normalised, "- [ ]"@)
    ||| starts_with(normalised, "* [ ]"@)
}

/// The lines from `i` on keep no active state and no unfinished delivery
/// status, `column` being the status column of the table they continue.
pub open spec fn table_check(lines: Seq<Seq<char>>, i: int, column: Option<int>) -> Result<(), Seq<char>>
    decreases lines.len() - i,
{
    if i < 0 || i >= lines.len() {
        Ok(())
    } else {
        let line = lines[i];
        let normalised = normalised_line(line);
        if retains_active_state(normalised) {
            Err("complete plan retains active state: "@ + line)
        } else if !starts_with(normalised, "|"@) {
            table_check(lines, i + 1, None)
        } else {
            let cells = row_cells(normalised);
            match position_from(cells, "status"@, 0) {
                Some(c) => table_check(lines, i + 1, Some(c)),
                None => match column {
                    Some(c) => {
                        let status = if 0 <= c < cells.len() {
                            cells[c]
                        } else {
                            Seq::empty()
                        };
                        if finished_status(status) {
                            table_check(lines, i + 1, column)
                        } else {
                            Err("complete plan retains unfinished delivery status: "@ + line)
                        }
                    },
                    None => table_check(lines, i + 1, None),
                },
            }
        }
    }
}

/// The rules of an active plan.
pub open spec fn active_check(lines: Seq<Seq<char>>) -> Result<(), Seq<char>> {
    match field_value(lines, "Next action:"@) {
        Err(message) => Err(message),
        Ok(next) => if ascii_lower(next) == "none"@ || ascii_lower(next) == "none."@ {
            Err("active plan requires an actionable Next action"@)
        } else if any_starts_with(lines, "Landed commit:"@) {
            Err("active plan cannot declare terminal Landed commit"@)
        } else {
            Ok(())
        },
    }
}

/// An active plan whose next action is actionable (not `none` or `none.` in
/// any case) is refused, with the terminal-commit message, exactly when one
/// of its lines begins with `Landed commit:`; otherwise it is accepted.
pub proof fn lemma_active_plan_refuses_landed_commit(source: Seq<char>, next: Seq<char>)
    requires
        field_value(lines(source), "Status:"@) == Ok::<Seq<char>, Seq<char>>("active"@),
        field_value(lines(source), "Next action:"@) == Ok::<Seq<char>, Seq<char>>(next),
        ascii_lower(next) != "none"@,
        ascii_lower(next) != "none."@,
    ensures
        (exists|i: int| 0 <= i < lines(source).len() && starts_with(#[trigger] lines(source)[i], "Landed commit:"@))
            ==> plan_check(source) == Err::<(), Seq<char>>("active plan cannot declare terminal Landed commit"@),
        !(exists|i: int| 0 <= i < lines(source).len() && starts_with(#[trigger] lines(source)[i], "Landed commit:"@))
            ==> plan_check(source) is Ok,
{
}

/// The rules of a complete plan.
pub open spec fn complete_check(lines: Seq<Seq<char>>) -> Result<(), Seq<char>> {
    match delivery_check(lines) {
        Err(message) => Err(message),
        Ok(_) => match landed_check(lines) {
            Err(message) => Err(message),
            Ok(_) => table_check(lines, 0, None),
        },
    }
}

/// Whether a plan document follows the lifecycle rules, and the first rule it
/// breaks.
pub open spec fn plan_check(source: Seq<char>) -> Result<(), Seq<char>> {
    let lines = lines(source);
    match field_value(lines, "Status:"@) {
        Err(message) => Err(message),
        Ok(status) => if status == "active"@ {
            active_check(lines)
        } else if status == "complete"@ {
            complete_check(lines)
        } else {
            Err("unknown Status: "@ + debug_text(status) + "; expected active or complete"@)
        },
    }
}


/// The value of the field `prefix` in the lines.
fn field_in(lines: &Vec<Vec<char>>, prefix: &str) -> (r: Result<Vec<char>, String>)
    ensures
        match r {
            Ok(value) => field_value(char_views(lines@), prefix@) == Ok::<Seq<char>, Seq<char>>(value@),
            Err(message) => field_value(char_views(lines@), prefix@) == Err::<Seq<char>, Seq<char>>(message@),
        },
{
    let ghost all = char_views(lines@);
    let pattern = chars_of(prefix);
    let mut values: Vec<Vec<char>> = Vec::new();
    let mut i: usize = 0;
    while i < lines.len()
        invariant
            0 <= i <= lines.len(),
            all == char_views(lines@),
            pattern@ == prefix@,
            char_views(values@) == field_values(all.subrange(0, i as int), pattern@),
        decreases lines.len() - i,
    {
        proof {
            assert(all.subrange(0, i as int + 1).drop_last() =~= all.subrange(0, i as int));
            assert(all.subrange(0, i as int + 1).last() == lines@[i as int]@);
        }
        let line = &lines[i];
        if starts_with_chars(line, &pattern) {
            let rest = copy_range(line, pattern.len(), line.len());
            let value = trim_chars(&rest, TrimClass::Space);
            let ghost before = values@;
            values.push(value);
            proof {
                assert(char_views(values@) =~= char_views(before).push(value@));
            }
        }
        i = i + 1;
    }
    proof {
        assert(all.subrange(0, all.len() as int) =~= all);
    }
    if values.len() == 1 && values[0].len() > 0 {
        Ok(values.remove(0))
    } else {
        let mut text = chars_of("expected exactly one non-empty ");
        push_chars(&mut text, &pattern);
        push_str(&mut text, " field");
        Err(string_from_chars(&text))
    }
}

/// Whether some line begins with `prefix`.
fn any_line_starts_with(lines: &Vec<Vec<char>>, prefix: &str) -> (r: bool)
    ensures
        r == any_starts_with(char_views(lines@), prefix@),
{
    let pattern = chars_of(prefix);
    let mut i: usize = 0;
    while i < lines.len()
        invariant
            0 <= i <= lines.len(),
            pattern@ == prefix@,
            forall|j: int| 0 <= j < i ==> !starts_with(#[trigger] char_views(lines@)[j], prefix@),
        decreases lines.len() - i,
    {
        if starts_with_chars(&lines[i], &pattern) {
            assert(starts_with(char_views(lines@)[i as int], prefix@));
            return true;
        }
        i = i + 1;
    }
    false
}

fn all_digits_without_leading_zero(number: &Vec<char>) -> (r: bool)
    ensures
        r == is_pull_number(number@),
{
    if number.len() == 0 || number[0] == '0' {
        return false;
    }
    let mut i: usize = 0;
    while i < number.len()
        invariant
            0 <= i <= number.len(),
            forall|k: int| 0 <= k < i ==> is_digit(#[trigger] number@[k]),
        decreases number.len() - i,
    {
        let code = number[i] as u32;
        if code < 48 || code > 57 {
            return false;
        }
        i = i + 1;
    }
    true
}

/// Whether the delivery field links the pull request that delivers the plan.
fn delivery_in(lines: &Vec<Vec<char>>) -> (r: Result<(), String>)
    ensures
        match r {
            Ok(_) => delivery_check(char_views(lines@)) is Ok,
            Err(message) => delivery_check(char_views(lines@)) == Err::<(), Seq<char>>(message@),
        },
{
    let delivery = match field_in(lines, "Delivery:") {
        Ok(value) => value,
        Err(message) => {
            return Err(message);
        },
    };
    let link = chars_of("](https://github.com/robchristie/polyorama/pull/");
    let close = chars_of(")");
    let refused = "Delivery must link to the owning Polyorama pull request";
    match find_chars(&delivery, &link) {
        Some(i) => {
            proof {
                assert(crate::text_scan::is_first_match(delivery@, link@, i as int));
                assert(i + link@.len() <= delivery@.len());
                assert(link.len() == link@.len() && delivery.len() == delivery@.len());
            }
            let rest = copy_range(&delivery, i + link.len(), delivery.len());
            match find_chars(&rest, &close) {
                Some(j) => {
                    proof {
                        assert(crate::text_scan::is_first_match(rest@, close@, j as int));
                    }
                    let number = copy_range(&rest, 0, j);
                    if all_digits_without_leading_zero(&number) {
                        Ok(())
                    } else {
                        Err(concat_chars(refused, &Vec::new()))
                    }
                },
                None => Err(concat_chars(refused, &Vec::new())),
            }
        },
        None => Err(concat_chars(refused, &Vec::new())),
    }
}


fn is_commit_id_chars(commit: &Vec<char>) -> (r: bool)
    ensures
        r == is_commit_id(commit@),
{
    if commit.len() != 40 {
        return false;
    }
    let mut i: usize = 0;
    while i < commit.len()
        invariant
            0 <= i <= commit.len(),
            forall|k: int| 0 <= k < i ==> is_lower_hex(#[trigger] commit@[k]),
        decreases commit.len() - i,
    {
        let code = commit[i] as u32;
        if !((48 <= code && code <= 57) || (97 <= code && code <= 102)) {
            return false;
        }
        i = i + 1;
    }
    true
}

/// Whether a declared landed commit is one full commit ID.
fn check_landed(lines: &Vec<Vec<char>>) -> (r: Result<(), String>)
    ensures
        match r {
            Ok(_) => landed_check(char_views(lines@)) is Ok,
            Err(message) => landed_check(char_views(lines@)) == Err::<(), Seq<char>>(message@),
        },
{
    if !any_line_starts_with(lines, "Landed commit:") {
        return Ok(());
    }
    let commit = match field_in(lines, "Landed commit:") {
        Ok(value) => value,
        Err(message) => {
            return Err(message);
        },
    };
    let bare = trim_chars(&commit, TrimClass::Exactly('`'));
    if is_commit_id_chars(&bare) {
        Ok(())
    } else {
        Err(concat_chars("Landed commit must be a full lowercase 40-character commit ID", &Vec::new()))
    }
}

fn literal_equal(text: &Vec<char>, literal: &str) -> (r: bool)
    ensures
        r == (text@ == literal@),
{
    let other = chars_of(literal);
    chars_equal(text, &other)
}

fn starts_with_literal(text: &Vec<char>, literal: &str) -> (r: bool)
    ensures
        r == starts_with(text@, literal@),
{
    let other = chars_of(literal);
    starts_with_chars(text, &other)
}

fn is_finished_status(status: &Vec<char>) -> (r: bool)
    ensures
        r == finished_status(status@),
{
    let mut separator = status.len() > 0;
    let mut i: usize = 0;
    while i < status.len()
        invariant
            0 <= i <= status.len(),
            separator == (status@.len() > 0 && forall|k: int|
                0 <= k < i ==> #[trigger] status@[k] == '-' || status@[k] == ':'),
        decreases status.len() - i,
    {
        let c = status[i];
        if c != '-' && c != ':' {
            separator = false;
        }
        i = i + 1;
    }
    separator || literal_equal(status, "landed") || literal_equal(status, "complete")
        || starts_with_literal(status, "complete for ")
}

/// The trimmed cells of a table row.
fn cells_of(normalised: &Vec<char>) -> (r: Vec<Vec<char>>)
    ensures
        char_views(r@) == row_cells(normalised@),
{
    let inner = trim_chars(normalised, TrimClass::Exactly('|'));
    let pieces = split_on(&inner, '|');
    let ghost raw = char_views(pieces@);
    let mut cells: Vec<Vec<char>> = Vec::new();
    let mut i: usize = 0;
    while i < pieces.len()
        invariant
            0 <= i <= pieces.len(),
            raw == char_views(pieces@),
            char_views(cells@) == raw.subrange(0, i as int).map_values(
                |cell: Seq<char>| trim(cell, TrimClass::Space),
            ),
        decreases pieces.len() - i,
    {
        let cell = trim_chars(&pieces[i], TrimClass::Space);
        let ghost before = cells@;
        cells.push(cell);
        proof {
            assert(char_views(cells@) =~= char_views(before).push(cell@));
            assert(char_views(cells@) =~= raw.subrange(0, i as int + 1).map_values(
                |cell: Seq<char>| trim(cell, TrimClass::Space),
            ));
        }
        i = i + 1;
    }
    proof {
        assert(raw.subrange(0, raw.len() as int) =~= raw);
    }
    cells
}

/// The position of the `status` cell.
fn status_position(cells: &Vec<Vec<char>>) -> (r: Option<usize>)
    ensures
        match r {
            Some(c) => position_from(char_views(cells@), "status"@, 0) == Some(c as int) && c
                < cells.len(),
            None => position_from(char_views(cells@), "status"@, 0) is None,
        },
{
    let mut k: usize = 0;
    while k < cells.len()
        invariant
            0 <= k <= cells.len(),
            position_from(char_views(cells@), "status"@, 0) == position_from(
                char_views(cells@),
                "status"@,
                k as int,
            ),
        decreases cells.len() - k,
    {
        if literal_equal(&cells[k], "status") {
            return Some(k);
        }
        k = k + 1;
    }
    None
}

pub open spec fn column_view(column: Option<usize>) -> Option<int> {
    match column {
        Some(c) => Some(c as int),
        None => None,
    }
}

/// Whether a complete plan keeps no active state and no unfinished delivery
/// rows.
fn check_tables(lines: &Vec<Vec<char>>) -> (r: Result<(), String>)
    ensures
        match r {
            Ok(_) => table_check(char_views(lines@), 0, None) is Ok,
            Err(message) => table_check(char_views(lines@), 0, None) == Err::<(), Seq<char>>(
                message@,
            ),
        },
{
    let ghost all = char_views(lines@);
    let mut column: Option<usize> = None;
    let mut i: usize = 0;
    while i < lines.len()
        invariant
            0 <= i <= lines.len(),
            all == char_views(lines@),
            table_check(all, 0, None) == table_check(all, i as int, column_view(column)),
        decreases lines.len() - i,
    {
        let line = &lines[i];
        let trimmed = trim_chars(line, TrimClass::Space);
        let normalised = ascii_lower_chars(&trimmed);
        let unhashed = trim_start_chars(&normalised, TrimClass::Exactly('#'));
        let heading = trim_chars(&unhashed, TrimClass::Space);
        proof {
            assert(all[i as int] == line@);
        }
        if literal_equal(&heading, "current phase") || literal_equal(&heading, "next action")
            || starts_with_literal(&normalised, "next action:") || starts_with_literal(
            &normalised,
            "- [ ]",
        ) || starts_with_literal(&normalised, "* [ ]") {
            return Err(concat_chars("complete plan retains active state: ", line));
        }
        if !starts_with_literal(&normalised, "|") {
            column = None;
        } else {
            let cells = cells_of(&normalised);
            match status_position(&cells) {
                Some(c) => {
                    column = Some(c);
                },
                None => match column {
                    Some(c) => {
                        let status = if c < cells.len() {
                            copy_range(&cells[c], 0, cells[c].len())
                        } else {
                            Vec::new()
                        };
                        proof {
                            if c < cells.len() {
                                assert(cells@[c as int]@.subrange(0, cells@[c as int]@.len() as int)
                                    =~= cells@[c as int]@);
                            }
                        }
                        if !is_finished_status(&status) {
                            return Err(
                                concat_chars("complete plan retains unfinished delivery status: ", line),
                            );
                        }
                    },
                    None => {},
                },
            }
        }
        i = i + 1;
    }
    Ok(())
}

/// Checks a plan document against the lifecycle rules: its `Status:` is
/// `active` or `complete`, an active plan has a real `Next action:` and no
/// `Landed commit:`, and a complete plan links its pull request, names its
/// landed commit in full if at all, and keeps no active state or unfinished
/// delivery rows. The error names the first rule broken.
pub fn validate(source: &str) -> (r: Result<(), String>)
    ensures
        match r {
            Ok(_) => plan_check(source@) is Ok,
            Err(message) => plan_check(source@) == Err::<(), Seq<char>>(message@),
        },
{
    let text = chars_of(source);
    let lines = lines_of(&text);
    let status = match field_in(&lines, "Status:") {
        Ok(value) => value,
        Err(message) => {
            return Err(message);
        },
    };
    if literal_equal(&status, "active") {
        let next = match field_in(&lines, "Next action:") {
            Ok(value) => value,
            Err(message) => {
                return Err(message);
            },
        };
        let lowered = ascii_lower_chars(&next);
        if literal_equal(&lowered, "none") || literal_equal(&lowered, "none.") {
            return Err(concat_chars("active plan requires an actionable Next action", &Vec::new()));
        }
        if any_line_starts_with(&lines, "Landed commit:") {
            return Err(concat_chars("active plan cannot declare terminal Landed commit", &Vec::new()));
        }
        Ok(())
    } else if literal_equal(&status, "complete") {
        match delivery_in(&lines) {
            Ok(_) => {},
            Err(message) => {
                return Err(message);
            },
        }
        match check_landed(&lines) {
            Ok(_) => {},
            Err(message) => {
                return Err(message);
            },
        }
        check_tables(&lines)
    } else {
        let status_text = string_from_chars(&status);
        let quoted = debug_quoted(status_text.as_str());
        let mut message = chars_of("unknown Status: ");
        let quoted_chars = chars_of(quoted.as_str());
        push_chars(&mut message, &quoted_chars);
        push_str(&mut message, "; expected active or complete");
        Err(string_from_chars(&message))
    }
}


/// The one non-empty value of the field `prefix` in a plan document.
pub fn field(source: &str, prefix: &str) -> (r: Result<String, String>)
    ensures
        match field_value(lines(source@), prefix@) {
            Ok(value) => r matches Ok(v) && v@ == value,
            Err(message) => r matches Err(e) && e@ == message,
        },
{
    let text = chars_of(source);
    let document_lines = lines_of(&text);
    match field_in(&document_lines, prefix) {
        Ok(value) => Ok(string_from_chars(&value)),
        Err(message) => Err(message),
    }
}

/// Whether the delivery field of a plan document links the pull request that
/// delivers it.
pub fn delivery_reference(source: &str) -> (r: Result<(), String>)
    ensures
        match delivery_check(lines(source@)) {
            Ok(_) => r is Ok,
            Err(message) => r matches Err(e) && e@ == message,
        },
{
    let text = chars_of(source);
    let document_lines = lines_of(&text);
    delivery_in(&document_lines)
}

} // verus!
