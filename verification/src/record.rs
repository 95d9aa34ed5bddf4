//! The text form of a task: seven lines, each a label and a value, in a
//! fixed order. A file of tasks is one such record after another.

use crate::error::TaskError;
use crate::task::{views, Task, TaskView};
use crate::text::{
    chars_of, decimal, decimal_value, lemma_decimal, lemma_signed_decimal, parse_decimal,
    parse_signed_decimal, push_decimal, push_signed_decimal, signed_decimal, signed_decimal_value,
    text_of,
};
use crate::time::{instant_of_text, instant_text, reads_back, Timestamp};
use vstd::prelude::*;
use vstd::string::*;

verus! {

/// The label of the first line, which also marks where a record begins.
pub open spec fn id_label() -> Seq<char> {
    "- ID: "@
}

/// The labels of the six lines that follow, each indented by two spaces.
pub open spec fn title_label() -> Seq<char> {
    "  Title: "@
}

pub open spec fn details_label() -> Seq<char> {
    "  Details: "@
}

pub open spec fn start_label() -> Seq<char> {
    "  Start: "@
}

pub open spec fn end_label() -> Seq<char> {
    "  End: "@
}

pub open spec fn recurring_label() -> Seq<char> {
    "  Recurring: "@
}

pub open spec fn frequency_label() -> Seq<char> {
    "  Frequency: "@
}

/// Whether `s` holds no line feed.
pub open spec fn single_line(s: Seq<char>) -> bool {
    forall|i: int| 0 <= i < s.len() ==> s[i] != '\n'
}

/// One line of a record: the label, the value, a line feed.
pub open spec fn line(label: Seq<char>, value: Seq<char>) -> Seq<char> {
    label + value + seq!['\n']
}

/// A truth value as a record writes it.
pub open spec fn bool_text(b: bool) -> Seq<char> {
    if b {
        "true"@
    } else {
        "false"@
    }
}

/// The truth value that `s` denotes; `None` unless `s` is `true` or `false`.
pub open spec fn bool_value(s: Seq<char>) -> Option<bool> {
    if s == "true"@ {
        Some(true)
    } else if s == "false"@ {
        Some(false)
    } else {
        None
    }
}

/// A frequency as a record writes it: the minutes in signed decimal
/// notation, or the word `none`.
pub open spec fn frequency_text(frequency: Option<int>) -> Seq<char> {
    match frequency {
        Some(minutes) => signed_decimal(minutes),
        None => "none"@,
    }
}

/// The frequency that `s` denotes; `None` if it denotes none that fits a
/// machine integer.
pub open spec fn frequency_value(s: Seq<char>) -> Option<Option<int>> {
    if s == "none"@ {
        Some(None)
    } else {
        match signed_decimal_value(s) {
            Some(minutes) if i64::MIN <= minutes <= i64::MAX => Some(Some(minutes)),
            _ => None,
        }
    }
}

/// The values of a record's seven lines, as texts.
pub ghost struct RawRecord {
    pub id: Seq<char>,
    pub title: Seq<char>,
    pub details: Seq<char>,
    pub start: Seq<char>,
    pub end: Seq<char>,
    pub recurring: Seq<char>,
    pub frequency: Seq<char>,
}

impl RawRecord {
    /// The seven lines, each with its label.
    pub open spec fn text(self) -> Seq<char> {
        line(id_label(), self.id) + line(title_label(), self.title) + line(
            details_label(),
            self.details,
        ) + line(start_label(), self.start) + line(end_label(), self.end) + line(
            recurring_label(),
            self.recurring,
        ) + line(frequency_label(), self.frequency)
    }

    /// Whether each value is a single line.
    pub open spec fn single_lines(self) -> bool {
        &&& single_line(self.id)
        &&& single_line(self.title)
        &&& single_line(self.details)
        &&& single_line(self.start)
        &&& single_line(self.end)
        &&& single_line(self.recurring)
        &&& single_line(self.frequency)
    }
}

/// The values of the record of `task`: the id in decimal notation, the
/// texts as they are, the times as RFC 3339 timestamps, `true` or `false`,
/// and the frequency in minutes or `none`.
pub open spec fn values_of(task: TaskView) -> RawRecord {
    RawRecord {
        id: decimal(task.id),
        title: task.title,
        details: task.details,
        start: instant_text(task.start),
        end: instant_text(task.end),
        recurring: bool_text(task.is_recurring),
        frequency: frequency_text(task.frequency),
    }
}

/// The record of `task`.
pub open spec fn record_text(task: TaskView) -> Seq<char> {
    values_of(task).text()
}

/// The records of `tasks`, one after another.
pub open spec fn records_text(tasks: Seq<TaskView>) -> Seq<char>
    decreases tasks.len(),
{
    if tasks.len() == 0 {
        Seq::empty()
    } else {
        record_text(tasks[0]) + records_text(tasks.drop_first())
    }
}

/// Whether the first line feed of `s` stands at `i`.
pub open spec fn is_line_end(s: Seq<char>, i: int) -> bool {
    &&& 0 <= i < s.len()
    &&& s[i] == '\n'
    &&& forall|j: int| 0 <= j < i ==> s[j] != '\n'
}

/// Where the first line of `s` ends; `None` if `s` holds no line feed.
pub open spec fn line_end(s: Seq<char>) -> Option<int> {
    if exists|i: int| is_line_end(s, i) {
        Some(choose|i: int| is_line_end(s, i))
    } else {
        None
    }
}

/// Reads one line of a record from the front of `s`: if the first line of
/// `s` begins with `label`, what follows the label in that line, and what
/// follows the line.
#[verifier::opaque]
pub open spec fn field(s: Seq<char>, label: Seq<char>) -> Option<(Seq<char>, Seq<char>)> {
    match line_end(s) {
        Some(n) => if label.is_prefix_of(s.take(n)) {
            Some((s.subrange(label.len() as int, n), s.skip(n + 1)))
        } else {
            None
        },
        None => None,
    }
}

/// Splits the seven lines of a record off the front of `s`: their values,
/// and what follows them.
#[verifier::opaque]
pub open spec fn split_record(s: Seq<char>) -> Option<(RawRecord, Seq<char>)> {
    match field(s, id_label()) {
        Some((id, s1)) => match field(s1, title_label()) {
            Some((title, s2)) => match field(s2, details_label()) {
                Some((details, s3)) => match field(s3, start_label()) {
                    Some((start, s4)) => match field(s4, end_label()) {
                        Some((end, s5)) => match field(s5, recurring_label()) {
                            Some((recurring, s6)) => match field(s6, frequency_label()) {
                                Some((frequency, rest)) => Some(
                                    (
                                        RawRecord {
                                            id,
                                            title,
                                            details,
                                            start,
                                            end,
                                            recurring,
                                            frequency,
                                        },
                                        rest,
                                    ),
                                ),
                                None => None,
                            },
                            None => None,
                        },
                        None => None,
                    },
                    None => None,
                },
                None => None,
            },
            None => None,
        },
        None => None,
    }
}

/// The task that the values of a record denote.
pub open spec fn read_values(raw: RawRecord) -> Option<TaskView> {
    match (
        decimal_value(raw.id),
        instant_of_text(raw.start),
        instant_of_text(raw.end),
        bool_value(raw.recurring),
        frequency_value(raw.frequency),
    ) {
        (Some(id), Some(start), Some(end), Some(is_recurring), Some(frequency)) => if id
            <= usize::MAX {
            Some(
                TaskView {
                    id,
                    title: raw.title,
                    details: raw.details,
                    start,
                    end,
                    is_recurring,
                    frequency,
                },
            )
        } else {
            None
        },
        _ => None,
    }
}

/// Reads one record from the front of `s`: the task, and what follows the
/// record. `None` unless `s` begins with the seven lines of a record, each
/// with its label, whose values denote an id that fits, two timestamps in
/// the years 0 to 9999, `true` or `false`, and a frequency or `none`.
pub open spec fn parse_record(s: Seq<char>) -> Option<(TaskView, Seq<char>)> {
    match split_record(s) {
        Some((raw, rest)) => match read_values(raw) {
            Some(task) => Some((task, rest)),
            None => None,
        },
        None => None,
    }
}

/// Reads `s` as records from the first character to the last. `None` unless
/// `s` is nothing but records.
pub open spec fn parse_records(s: Seq<char>) -> Option<Seq<TaskView>>
    decreases s.len(),
{
    if s.len() == 0 {
        Some(Seq::empty())
    } else {
        proof {
            lemma_split_shortens(s);
        }
        match parse_record(s) {
            Some((task, rest)) => match parse_records(rest) {
                Some(tasks) => Some(seq![task] + tasks),
                None => None,
            },
            None => None,
        }
    }
}

/// The first line of a text ends where its first line feed stands.
proof fn lemma_line_end(s: Seq<char>, i: int)
    requires
        is_line_end(s, i),
    ensures
        line_end(s) == Some(i),
{
    let c = choose|c: int| is_line_end(s, c);
    assert(is_line_end(s, c));
    if c < i {
        assert(s[c] != '\n');
    }
    if i < c {
        assert(s[i] != '\n');
    }
}

/// What `field` hands on is shorter than what it was given.
proof fn lemma_field_shortens(s: Seq<char>, label: Seq<char>)
    ensures
        field(s, label) matches Some((value, rest)) ==> rest.len() < s.len(),
{
    reveal(field);
}

/// What follows a record is shorter than the text that began with it.
pub proof fn lemma_split_shortens(s: Seq<char>)
    ensures
        split_record(s) matches Some((raw, rest)) ==> rest.len() < s.len(),
{
    reveal(split_record);
    lemma_field_shortens(s, id_label());
    if let Some((id, s1)) = field(s, id_label()) {
        lemma_field_shortens(s1, title_label());
        if let Some((title, s2)) = field(s1, title_label()) {
            lemma_field_shortens(s2, details_label());
            if let Some((details, s3)) = field(s2, details_label()) {
                lemma_field_shortens(s3, start_label());
                if let Some((start, s4)) = field(s3, start_label()) {
                    lemma_field_shortens(s4, end_label());
                    if let Some((end, s5)) = field(s4, end_label()) {
                        lemma_field_shortens(s5, recurring_label());
                        if let Some((recurring, s6)) = field(s5, recurring_label()) {
                            lemma_field_shortens(s6, frequency_label());
                        }
                    }
                }
            }
        }
    }
}

/// A line that was written with a label is read back with it: the value
/// comes out, and what followed the line is left.
proof fn lemma_field_of_line(label: Seq<char>, value: Seq<char>, rest: Seq<char>)
    requires
        single_line(label),
        single_line(value),
    ensures
        field(line(label, value) + rest, label) == Some((value, rest)),
{
    reveal(field);
    let s = line(label, value) + rest;
    let n = (label.len() + value.len()) as int;
    assert(s[n] == '\n');
    assert forall|j: int| 0 <= j < n implies s[j] != '\n' by {
        if j < label.len() {
            assert(s[j] == label[j]);
        } else {
            assert(s[j] == value[j - label.len()]);
        }
    }
    lemma_line_end(s, n);
    assert(label =~= s.take(n).subrange(0, label.len() as int));
    assert(s.subrange(label.len() as int, n) =~= value);
    assert(s.skip(n + 1) =~= rest);
}

/// No label holds a line feed.
proof fn lemma_labels_single_line()
    ensures
        single_line(id_label()),
        single_line(title_label()),
        single_line(details_label()),
        single_line(start_label()),
        single_line(end_label()),
        single_line(recurring_label()),
        single_line(frequency_label()),
{
    reveal_strlit("- ID: ");
    reveal_strlit("  Title: ");
    reveal_strlit("  Details: ");
    reveal_strlit("  Start: ");
    reveal_strlit("  End: ");
    reveal_strlit("  Recurring: ");
    reveal_strlit("  Frequency: ");
}

proof fn lemma_concat_assoc(a: Seq<char>, b: Seq<char>, c: Seq<char>)
    ensures
        (a + b) + c == a + (b + c),
{
    assert((a + b) + c =~= a + (b + c));
}

/// Seven lines that were written are split off again: their values come
/// out, and what followed them is left.
proof fn lemma_split_of_text(raw: RawRecord, rest: Seq<char>)
    requires
        raw.single_lines(),
    ensures
        split_record(raw.text() + rest) == Some((raw, rest)),
{
    reveal(split_record);
    lemma_labels_single_line();
    let l1 = line(id_label(), raw.id);
    let l2 = line(title_label(), raw.title);
    let l3 = line(details_label(), raw.details);
    let l4 = line(start_label(), raw.start);
    let l5 = line(end_label(), raw.end);
    let l6 = line(recurring_label(), raw.recurring);
    let l7 = line(frequency_label(), raw.frequency);
    let s6 = l7 + rest;
    let s5 = l6 + s6;
    let s4 = l5 + s5;
    let s3 = l4 + s4;
    let s2 = l3 + s3;
    let s1 = l2 + s2;
    let s0 = l1 + s1;
    assert(raw.text() + rest == s0) by {
        lemma_concat_assoc(l1 + l2 + l3 + l4 + l5 + l6, l7, rest);
        lemma_concat_assoc(l1 + l2 + l3 + l4 + l5, l6, s6);
        lemma_concat_assoc(l1 + l2 + l3 + l4, l5, s5);
        lemma_concat_assoc(l1 + l2 + l3, l4, s4);
        lemma_concat_assoc(l1 + l2, l3, s3);
        lemma_concat_assoc(l1, l2, s2);
    }
    lemma_field_of_line(id_label(), raw.id, s1);
    lemma_field_of_line(title_label(), raw.title, s2);
    lemma_field_of_line(details_label(), raw.details, s3);
    lemma_field_of_line(start_label(), raw.start, s4);
    lemma_field_of_line(end_label(), raw.end, s5);
    lemma_field_of_line(recurring_label(), raw.recurring, s6);
    lemma_field_of_line(frequency_label(), raw.frequency, rest);
}

/// A truth value is read back from its text.
proof fn lemma_bool_text(b: bool)
    ensures
        bool_value(bool_text(b)) == Some(b),
        single_line(bool_text(b)),
{
    reveal_strlit("true");
    reveal_strlit("false");
    assert("true"@.len() != "false"@.len());
}

/// A frequency that fits a machine integer is read back from its text.
proof fn lemma_frequency_text(frequency: Option<int>)
    requires
        frequency matches Some(f) ==> i64::MIN <= f <= i64::MAX,
    ensures
        frequency_value(frequency_text(frequency)) == Some(frequency),
        single_line(frequency_text(frequency)),
{
    reveal_strlit("none");
    match frequency {
        Some(minutes) => {
            lemma_signed_decimal(minutes);
            let text = signed_decimal(minutes);
            if minutes < 0 {
                assert(text[0] == '-');
            } else {
                lemma_decimal(minutes as nat);
                assert(crate::text::digit_value(text[0]) is Some);
            }
            assert(text[0] != "none"@[0]);
        },
        None => {},
    }
}

/// The values of a task's record are single lines and denote the task.
proof fn lemma_values_of(task: TaskView)
    requires
        task.in_bounds(),
        single_line(task.title),
        single_line(task.details),
        reads_back(task.start),
        reads_back(task.end),
    ensures
        values_of(task).single_lines(),
        read_values(values_of(task)) == Some(task),
{
    lemma_decimal(task.id);
    lemma_bool_text(task.is_recurring);
    lemma_frequency_text(task.frequency);
    assert(single_line(instant_text(task.start))) by {
        let t = instant_text(task.start);
        assert forall|i: int| 0 <= i < t.len() implies t[i] != '\n' by {
            if t[i] == '\n' {
                assert(t.contains('\n'));
            }
        }
    }
    assert(single_line(instant_text(task.end))) by {
        let t = instant_text(task.end);
        assert forall|i: int| 0 <= i < t.len() implies t[i] != '\n' by {
            if t[i] == '\n' {
                assert(t.contains('\n'));
            }
        }
    }
}

/// The law of the record format: a record that was written is read back as
/// the same task, with what followed it left over. It holds of every task
/// whose title and details are single lines; a line feed in either would
/// end the line early.
pub proof fn lemma_record_read_back(task: TaskView, rest: Seq<char>)
    requires
        task.in_bounds(),
        single_line(task.title),
        single_line(task.details),
        reads_back(task.start),
        reads_back(task.end),
    ensures
        parse_record(record_text(task) + rest) == Some((task, rest)),
{
    lemma_values_of(task);
    lemma_split_of_text(values_of(task), rest);
}

/// Whether every task of `tasks` can be written as a record and read back.
pub open spec fn all_writable(tasks: Seq<TaskView>) -> bool {
    forall|i: int|
        0 <= i < tasks.len() ==> {
            &&& (#[trigger] tasks[i]).in_bounds()
            &&& single_line(tasks[i].title)
            &&& single_line(tasks[i].details)
            &&& reads_back(tasks[i].start)
            &&& reads_back(tasks[i].end)
        }
}

/// A record is never empty.
proof fn lemma_record_not_empty(task: TaskView)
    ensures
        record_text(task).len() > 0,
{
}

/// The law of the file format: tasks that were written one after another
/// are read back as the same tasks in the same order.
pub proof fn lemma_records_read_back(tasks: Seq<TaskView>)
    requires
        all_writable(tasks),
    ensures
        parse_records(records_text(tasks)) == Some(tasks),
    decreases tasks.len(),
{
    if tasks.len() == 0 {
        assert(tasks =~= Seq::empty());
    } else {
        let first = tasks[0];
        let others = tasks.drop_first();
        assert(all_writable(others)) by {
            assert forall|i: int| 0 <= i < others.len() implies {
                &&& (#[trigger] others[i]).in_bounds()
                &&& single_line(others[i].title)
                &&& single_line(others[i].details)
                &&& reads_back(others[i].start)
                &&& reads_back(others[i].end)
            } by {
                assert(others[i] == tasks[i + 1]);
            }
        }
        lemma_records_read_back(others);
        lemma_record_read_back(first, records_text(others));
        lemma_record_not_empty(first);
        let s = records_text(tasks);
        assert(s == record_text(first) + records_text(others));
        assert(s.len() > 0);
        assert(parse_record(s) == Some((first, records_text(others))));
        assert(seq![first] + others =~= tasks);
    }
}

/// Writing one more task adds its record at the end.
pub proof fn lemma_records_text_push(tasks: Seq<TaskView>, task: TaskView)
    ensures
        records_text(tasks.push(task)) == records_text(tasks) + record_text(task),
    decreases tasks.len(),
{
    let longer = tasks.push(task);
    if tasks.len() == 0 {
        assert(longer.drop_first() =~= Seq::<TaskView>::empty());
        assert(records_text(longer.drop_first()) =~= Seq::<char>::empty());
        assert(records_text(longer) =~= record_text(task));
        assert(records_text(tasks) + record_text(task) =~= record_text(task));
    } else {
        assert(longer.drop_first() =~= tasks.drop_first().push(task));
        lemma_records_text_push(tasks.drop_first(), task);
        lemma_concat_assoc(
            record_text(tasks[0]),
            records_text(tasks.drop_first()),
            record_text(task),
        );
    }
}

fn push_line(out: &mut String, label: &str, value: &str)
    ensures
        final(out)@ == old(out)@ + line(label@, value@),
{
    out.append(label);
    out.append(value);
    out.push('\n');
    assert(final(out)@ =~= old(out)@ + line(label@, value@));
}

/// Appends the record of `task` to `out`.
pub fn push_record(out: &mut String, task: &Task)
    ensures
        final(out)@ == old(out)@ + record_text(task@),
        task@.in_bounds(),
        reads_back(task@.start),
        reads_back(task@.end),
{
    proof {
        use_type_invariant(&task.start_time);
        use_type_invariant(&task.end_time);
        task.lemma_in_bounds();
    }
    let mut id = String::new();
    push_decimal(&mut id, task.id as u64);
    let start = task.start_time.to_rfc3339();
    let end = task.end_time.to_rfc3339();
    let mut frequency = String::new();
    match task.frequency_minutes {
        Some(minutes) => push_signed_decimal(&mut frequency, minutes),
        None => frequency.append("none"),
    }
    assert(id@ =~= decimal(task@.id));
    assert(frequency@ =~= frequency_text(task@.frequency));
    let ghost before = out@;
    let ghost raw = values_of(task@);
    push_line(out, "- ID: ", id.as_str());
    push_line(out, "  Title: ", task.title.as_str());
    push_line(out, "  Details: ", task.details.as_str());
    push_line(out, "  Start: ", start.as_str());
    push_line(out, "  End: ", end.as_str());
    push_line(out, "  Recurring: ", if task.is_recurring { "true" } else { "false" });
    push_line(out, "  Frequency: ", frequency.as_str());
    proof {
        let l1 = line(id_label(), raw.id);
        let l2 = line(title_label(), raw.title);
        let l3 = line(details_label(), raw.details);
        let l4 = line(start_label(), raw.start);
        let l5 = line(end_label(), raw.end);
        let l6 = line(recurring_label(), raw.recurring);
        let l7 = line(frequency_label(), raw.frequency);
        assert(out@ == before + l1 + l2 + l3 + l4 + l5 + l6 + l7);
        lemma_concat_assoc(before, l1, l2);
        lemma_concat_assoc(before, l1 + l2, l3);
        lemma_concat_assoc(before, l1 + l2 + l3, l4);
        lemma_concat_assoc(before, l1 + l2 + l3 + l4, l5);
        lemma_concat_assoc(before, l1 + l2 + l3 + l4 + l5, l6);
        lemma_concat_assoc(before, l1 + l2 + l3 + l4 + l5 + l6, l7);
    }
}

/// The record of `task`. It is read back as the same task if the title and
/// the details are single lines.
pub fn format_record(task: &Task) -> (text: String)
    ensures
        text@ == record_text(task@),
        single_line(task@.title) && single_line(task@.details) ==> parse_record(text@) == Some(
            (task@, Seq::<char>::empty()),
        ),
{
    let mut text = String::new();
    push_record(&mut text, task);
    proof {
        assert(text@ =~= record_text(task@));
        if single_line(task@.title) && single_line(task@.details) {
            lemma_record_read_back(task@, Seq::empty());
            assert(record_text(task@) + Seq::<char>::empty() =~= record_text(task@));
        }
    }
    text
}

/// Whether the titles and details of `tasks` are single lines.
pub open spec fn all_single_line(tasks: Seq<TaskView>) -> bool {
    forall|i: int|
        0 <= i < tasks.len() ==> single_line((#[trigger] tasks[i]).title) && single_line(
            tasks[i].details,
        )
}

/// The records of `tasks`, one after another. They are read back as the
/// same tasks if all titles and details are single lines.
pub fn format_records(tasks: &Vec<Task>) -> (text: String)
    ensures
        text@ == records_text(views(tasks@)),
        all_single_line(views(tasks@)) ==> parse_records(text@) == Some(views(tasks@)),
{
    let mut text = String::new();
    let mut i: usize = 0;
    while i < tasks.len()
        invariant
            i <= tasks.len(),
            text@ == records_text(views(tasks@.take(i as int))),
            forall|k: int|
                0 <= k < i ==> {
                    &&& (#[trigger] tasks@[k])@.in_bounds()
                    &&& reads_back(tasks@[k]@.start)
                    &&& reads_back(tasks@[k]@.end)
                },
        decreases tasks.len() - i,
    {
        push_record(&mut text, &tasks[i]);
        proof {
            let done = views(tasks@.take(i as int));
            lemma_records_text_push(done, tasks@[i as int]@);
            assert(views(tasks@.take(i + 1)) =~= done.push(tasks@[i as int]@));
        }
        i += 1;
    }
    proof {
        assert(tasks@.take(i as int) =~= tasks@);
        let all = views(tasks@);
        if all_single_line(all) {
            assert forall|k: int| 0 <= k < all.len() implies {
                &&& (#[trigger] all[k]).in_bounds()
                &&& single_line(all[k].title)
                &&& single_line(all[k].details)
                &&& reads_back(all[k].start)
                &&& reads_back(all[k].end)
            } by {
                assert(all[k] == tasks@[k]@);
            }
            lemma_records_read_back(all);
        }
    }
    text
}

/// Where the line that begins at `pos` ends.
fn find_line_end(chars: &Vec<char>, pos: usize) -> (r: Option<usize>)
    requires
        pos <= chars.len(),
    ensures
        match r {
            Some(end) => pos <= end < chars.len() && line_end(chars@.skip(pos as int)) == Some(
                end - pos,
            ),
            None => line_end(chars@.skip(pos as int)) is None,
        },
{
    let ghost s = chars@.skip(pos as int);
    let mut i: usize = pos;
    while i < chars.len()
        invariant
            pos <= i <= chars.len(),
            s == chars@.skip(pos as int),
            forall|j: int| 0 <= j < i - pos ==> s[j] != '\n',
        decreases chars.len() - i,
    {
        if chars[i] == '\n' {
            proof {
                assert(s[i - pos] == chars@[i as int]);
                lemma_line_end(s, i - pos);
            }
            return Some(i);
        }
        assert(s[i - pos] == chars@[i as int]);
        i += 1;
    }
    assert forall|k: int| !is_line_end(s, k) by {
        if 0 <= k < s.len() {
            assert(s[k] != '\n');
        }
    }
    None
}

/// Whether the characters from `from` up to `to` begin with `word`.
fn begins_with(chars: &Vec<char>, from: usize, to: usize, word: &Vec<char>) -> (r: bool)
    requires
        from <= to <= chars.len(),
    ensures
        r == word@.is_prefix_of(chars@.subrange(from as int, to as int)),
{
    let ghost s = chars@.subrange(from as int, to as int);
    if word.len() > to - from {
        return false;
    }
    let mut k: usize = 0;
    while k < word.len()
        invariant
            k <= word.len() <= to - from,
            from <= to <= chars.len(),
            s == chars@.subrange(from as int, to as int),
            forall|j: int| 0 <= j < k ==> word@[j] == s[j],
        decreases word.len() - k,
    {
        if word[k] != chars[from + k] {
            assert(s.subrange(0, word.len() as int)[k as int] == s[k as int]);
            return false;
        }
        k += 1;
    }
    assert(word@ =~= s.subrange(0, word.len() as int));
    true
}

/// Whether the characters from `from` up to `to` are `word`.
fn is_word(chars: &Vec<char>, from: usize, to: usize, word: &str) -> (r: bool)
    requires
        from <= to <= chars.len(),
    ensures
        r == (chars@.subrange(from as int, to as int) == word@),
{
    let letters = chars_of(word);
    let ghost s = chars@.subrange(from as int, to as int);
    if letters.len() != to - from {
        return false;
    }
    let r = begins_with(chars, from, to, &letters);
    assert(s.subrange(0, s.len() as int) =~= s);
    r
}

/// Reads the line that begins at `pos` if it begins with `label`: where its
/// value begins, and where the line ends.
fn take_field(chars: &Vec<char>, pos: usize, label: &str) -> (r: Option<(usize, usize)>)
    requires
        pos <= chars.len(),
    ensures
        match r {
            Some((from, to)) => {
                &&& pos <= from <= to < chars.len()
                &&& field(chars@.skip(pos as int), label@) == Some(
                    (chars@.subrange(from as int, to as int), chars@.skip(to + 1)),
                )
            },
            None => field(chars@.skip(pos as int), label@) is None,
        },
{
    reveal(field);
    let ghost s = chars@.skip(pos as int);
    match find_line_end(chars, pos) {
        Some(end) => {
            let letters = chars_of(label);
            assert(s.take(end - pos) =~= chars@.subrange(pos as int, end as int));
            if begins_with(chars, pos, end, &letters) {
                let from = pos + letters.len();
                assert(s.subrange(label@.len() as int, end - pos) =~= chars@.subrange(
                    from as int,
                    end as int,
                ));
                assert(s.skip(end - pos + 1) =~= chars@.skip(end + 1));
                Some((from, end))
            } else {
                None
            }
        },
        None => None,
    }
}

/// Reads the characters from `from` up to `to` as a timestamp.
fn parse_instant(chars: &Vec<char>, from: usize, to: usize) -> (r: Option<Timestamp>)
    requires
        from <= to <= chars.len(),
    ensures
        match r {
            Some(t) => instant_of_text(chars@.subrange(from as int, to as int)) == Some(t@),
            None => instant_of_text(chars@.subrange(from as int, to as int)) is None,
        },
{
    let text = text_of(chars, from, to);
    match Timestamp::parse_rfc3339(text.as_str()) {
        Ok(t) => Some(t),
        Err(_) => None,
    }
}

/// Reads the characters from `from` up to `to` as `true` or `false`.
fn parse_bool(chars: &Vec<char>, from: usize, to: usize) -> (r: Option<bool>)
    requires
        from <= to <= chars.len(),
    ensures
        r == bool_value(chars@.subrange(from as int, to as int)),
{
    if is_word(chars, from, to, "true") {
        Some(true)
    } else if is_word(chars, from, to, "false") {
        Some(false)
    } else {
        None
    }
}

/// Reads the characters from `from` up to `to` as a frequency.
fn parse_frequency(chars: &Vec<char>, from: usize, to: usize) -> (r: Option<Option<i64>>)
    requires
        from <= to <= chars.len(),
    ensures
        match r {
            Some(Some(minutes)) => frequency_value(chars@.subrange(from as int, to as int))
                == Some(Some(minutes as int)),
            Some(None) => frequency_value(chars@.subrange(from as int, to as int)) == Some(
                None::<int>,
            ),
            None => frequency_value(chars@.subrange(from as int, to as int)) is None,
        },
{
    if is_word(chars, from, to, "none") {
        Some(None)
    } else {
        match parse_signed_decimal(chars, from, to) {
            Some(minutes) => Some(Some(minutes)),
            None => None,
        }
    }
}

/// Where the values of the record that begins at `pos` stand: for each of
/// the seven lines, where its value begins and where the line ends.
struct Spans {
    id: (usize, usize),
    title: (usize, usize),
    details: (usize, usize),
    start: (usize, usize),
    end: (usize, usize),
    recurring: (usize, usize),
    frequency: (usize, usize),
}

impl Spans {
    spec fn within(self, chars: Seq<char>) -> bool {
        &&& self.id.0 <= self.id.1 < chars.len()
        &&& self.title.0 <= self.title.1 < chars.len()
        &&& self.details.0 <= self.details.1 < chars.len()
        &&& self.start.0 <= self.start.1 < chars.len()
        &&& self.end.0 <= self.end.1 < chars.len()
        &&& self.recurring.0 <= self.recurring.1 < chars.len()
        &&& self.frequency.0 <= self.frequency.1 < chars.len()
    }

    spec fn values(self, chars: Seq<char>) -> RawRecord {
        RawRecord {
            id: chars.subrange(self.id.0 as int, self.id.1 as int),
            title: chars.subrange(self.title.0 as int, self.title.1 as int),
            details: chars.subrange(self.details.0 as int, self.details.1 as int),
            start: chars.subrange(self.start.0 as int, self.start.1 as int),
            end: chars.subrange(self.end.0 as int, self.end.1 as int),
            recurring: chars.subrange(self.recurring.0 as int, self.recurring.1 as int),
            frequency: chars.subrange(self.frequency.0 as int, self.frequency.1 as int),
        }
    }
}

/// Splits the seven lines of a record off at `pos`.
fn split_record_at(chars: &Vec<char>, pos: usize) -> (r: Option<Spans>)
    requires
        pos <= chars.len(),
    ensures
        match r {
            Some(spans) => {
                &&& spans.within(chars@)
                &&& pos < spans.frequency.1 + 1
                &&& split_record(chars@.skip(pos as int)) == Some(
                    (spans.values(chars@), chars@.skip(spans.frequency.1 + 1)),
                )
            },
            None => split_record(chars@.skip(pos as int)) is None,
        },
{
    reveal(split_record);
    let id = match take_field(chars, pos, "- ID: ") {
        Some(span) => span,
        None => { return None; },
    };
    let title = match take_field(chars, id.1 + 1, "  Title: ") {
        Some(span) => span,
        None => { return None; },
    };
    let details = match take_field(chars, title.1 + 1, "  Details: ") {
        Some(span) => span,
        None => { return None; },
    };
    let start = match take_field(chars, details.1 + 1, "  Start: ") {
        Some(span) => span,
        None => { return None; },
    };
    let end = match take_field(chars, start.1 + 1, "  End: ") {
        Some(span) => span,
        None => { return None; },
    };
    let recurring = match take_field(chars, end.1 + 1, "  Recurring: ") {
        Some(span) => span,
        None => { return None; },
    };
    let frequency = match take_field(chars, recurring.1 + 1, "  Frequency: ") {
        Some(span) => span,
        None => { return None; },
    };
    Some(Spans { id, title, details, start, end, recurring, frequency })
}

/// Reads the record that begins at `pos`: the task, and where the record
/// ends.
fn parse_record_at(chars: &Vec<char>, pos: usize) -> (r: Option<(Task, usize)>)
    requires
        pos <= chars.len(),
    ensures
        match r {
            Some((task, next)) => {
                &&& pos < next <= chars.len()
                &&& parse_record(chars@.skip(pos as int)) == Some((task@, chars@.skip(next as int)))
            },
            None => parse_record(chars@.skip(pos as int)) is None,
        },
{
    let spans = match split_record_at(chars, pos) {
        Some(spans) => spans,
        None => { return None; },
    };
    let id = match parse_decimal(chars, spans.id.0, spans.id.1) {
        Some(id) => id,
        None => { return None; },
    };
    if id > usize::MAX as u64 {
        return None;
    }
    let start_time = match parse_instant(chars, spans.start.0, spans.start.1) {
        Some(t) => t,
        None => { return None; },
    };
    let end_time = match parse_instant(chars, spans.end.0, spans.end.1) {
        Some(t) => t,
        None => { return None; },
    };
    let is_recurring = match parse_bool(chars, spans.recurring.0, spans.recurring.1) {
        Some(b) => b,
        None => { return None; },
    };
    let frequency_minutes = match parse_frequency(chars, spans.frequency.0, spans.frequency.1) {
        Some(f) => f,
        None => { return None; },
    };
    let task = Task {
        id: id as usize,
        title: text_of(chars, spans.title.0, spans.title.1),
        details: text_of(chars, spans.details.0, spans.details.1),
        start_time,
        end_time,
        is_recurring,
        frequency_minutes,
    };
    Some((task, spans.frequency.1 + 1))
}

/// Reads `text` as records from the first character to the last. Fails with
/// `Serialization` unless `text` is nothing but records.
pub fn read_records(text: &str) -> (r: Result<Vec<Task>, TaskError>)
    ensures
        match r {
            Ok(tasks) => parse_records(text@) == Some(views(tasks@)),
            Err(TaskError::Serialization) => parse_records(text@) is None,
            Err(_) => false,
        },
{
    let chars = chars_of(text);
    let mut tasks: Vec<Task> = Vec::new();
    let mut pos: usize = 0;
    proof {
        assert(chars@.skip(0) =~= chars@);
        assert(views(tasks@) =~= Seq::<TaskView>::empty());
        if let Some(all) = parse_records(chars@) {
            assert(Seq::<TaskView>::empty() + all =~= all);
        }
    }
    while pos < chars.len()
        invariant
            pos <= chars.len(),
            chars@ == text@,
            parse_records(chars@) == match parse_records(chars@.skip(pos as int)) {
                Some(rest) => Some(views(tasks@) + rest),
                None => None,
            },
        decreases chars.len() - pos,
    {
        let ghost s = chars@.skip(pos as int);
        let ghost done = views(tasks@);
        match parse_record_at(&chars, pos) {
            Some((task, next)) => {
                proof {
                    let rest = parse_records(chars@.skip(next as int));
                    if let Some(more) = rest {
                        assert(done + (seq![task@] + more) =~= done.push(task@) + more);
                    }
                    assert(views(tasks@.push(task)) =~= done.push(task@));
                }
                tasks.push(task);
                pos = next;
            },
            None => {
                return Err(TaskError::Serialization);
            },
        }
    }
    proof {
        assert(chars@.skip(pos as int) =~= Seq::<char>::empty());
        assert(views(tasks@) + Seq::<TaskView>::empty() =~= views(tasks@));
    }
    Ok(tasks)
}

/// Reads `text` as one record and nothing else. Fails with `Serialization`
/// on any other text.
pub fn read_record(text: &str) -> (r: Result<Task, TaskError>)
    ensures
        match r {
            Ok(task) => parse_record(text@) == Some((task@, Seq::<char>::empty())),
            Err(TaskError::Serialization) => !(parse_record(text@) matches Some((_, rest))
                && rest.len() == 0),
            Err(_) => false,
        },
{
    let chars = chars_of(text);
    assert(chars@.skip(0) =~= chars@);
    match parse_record_at(&chars, 0) {
        Some((task, next)) => {
            if next == chars.len() {
                assert(chars@.skip(next as int) =~= Seq::<char>::empty());
                Ok(task)
            } else {
                Err(TaskError::Serialization)
            }
        },
        None => Err(TaskError::Serialization),
    }
}

} // verus!
