use todo_tasks::error::TaskError;
use todo_tasks::record::{format_record, format_records, read_record, read_records};
use todo_tasks::task::Task;
use todo_tasks::time::Timestamp;

fn at(secs: i64, nanos: u32) -> Timestamp {
    Timestamp::new(secs, nanos).unwrap()
}

fn standup() -> Task {
    let mut task = Task::new(
        "standup".to_string(),
        "daily sync".to_string(),
        at(1_735_657_206, 0),
        at(1_735_657_506, 500_000_000),
        true,
        Some(60),
    );
    task.id = 12;
    task
}

const STANDUP: &str = "- ID: 12\n  Title: standup\n  Details: daily sync\n  Start: 2024-12-31T15:00:06+00:00\n  End: 2024-12-31T15:05:06.500+00:00\n  Recurring: true\n  Frequency: 60\n";

#[test]
fn record_has_seven_labelled_lines() {
    assert_eq!(format_record(&standup()), STANDUP);
}

#[test]
fn record_without_frequency_says_none() {
    let task = Task::new("a".to_string(), "".to_string(), at(0, 0), at(1, 0), false, None);
    assert_eq!(
        format_record(&task),
        "- ID: 0\n  Title: a\n  Details: \n  Start: 1970-01-01T00:00:00+00:00\n  End: 1970-01-01T00:00:01+00:00\n  Recurring: false\n  Frequency: none\n"
    );
}

#[test]
fn record_writes_a_negative_frequency_with_its_sign() {
    let task = Task::new("a".to_string(), "b".to_string(), at(0, 0), at(1, 0), true, Some(i64::MIN));
    let text = format_record(&task);
    assert!(text.ends_with("  Frequency: -9223372036854775808\n"));
    assert_eq!(read_record(&text), Ok(task));
}

#[test]
fn record_is_read_back() {
    assert_eq!(read_record(STANDUP), Ok(standup()));
    assert_eq!(read_record(&format_record(&standup())), Ok(standup()));
}

#[test]
fn record_with_odd_texts_is_read_back() {
    let mut task = Task::new(
        "  Title: - ID: 5 ".to_string(),
        " tr\u{e4}iler\r\t\u{1F600}  ".to_string(),
        at(-62_167_219_200, 0),
        at(253_402_300_799, 999_999_999),
        false,
        Some(0),
    );
    task.id = usize::MAX;
    assert_eq!(read_record(&format_record(&task)), Ok(task));
}

#[test]
fn read_record_takes_any_rfc3339_form_of_the_times() {
    let text = "- ID: 12\n  Title: standup\n  Details: daily sync\n  Start: 2024-12-31T16:00:06+01:00\n  End: 2024-12-31 15:05:06.5Z\n  Recurring: true\n  Frequency: 60\n";
    assert_eq!(read_record(text), Ok(standup()));
}

#[test]
fn read_record_rejects_what_is_no_record() {
    let broken = [
        "",
        "\n",
        "- ID: 12\n",
        &STANDUP[..STANDUP.len() - 1],
        &STANDUP.replace("- ID: 12", "- ID: 012"),
        &STANDUP.replace("- ID: 12", "- ID: +12"),
        &STANDUP.replace("- ID: 12", "- ID: "),
        &STANDUP.replace("- ID: 12", "- ID: 99999999999999999999999999"),
        &STANDUP.replace("- ID: 12", "-ID: 12"),
        &STANDUP.replace("  Title: ", " Title: "),
        &STANDUP.replace("  Title: ", "  Details: "),
        &STANDUP.replace("  Start: 2024", "  Start: 24"),
        &STANDUP.replace("  End: 2024-12-31T15:05:06.500+00:00", "  End: 2016-12-31T23:59:60Z"),
        &STANDUP.replace("Recurring: true", "Recurring: True"),
        &STANDUP.replace("Recurring: true", "Recurring: yes"),
        &STANDUP.replace("Frequency: 60", "Frequency: None"),
        &STANDUP.replace("Frequency: 60", "Frequency: Some(60)"),
        &STANDUP.replace("Frequency: 60", "Frequency: -0"),
        &STANDUP.replace("Frequency: 60", "Frequency: 9223372036854775808"),
        &STANDUP.replace("Frequency: 60", "Frequency: 60 "),
        &STANDUP.replace("  Details: daily sync\n", ""),
        &STANDUP.replace("  Details: daily sync\n", "  Details: daily\nsync\n"),
        &format!("{}\n", STANDUP),
        &format!("{}{}", STANDUP, STANDUP),
    ];
    for text in broken {
        assert_eq!(read_record(text), Err(TaskError::Serialization), "{:?}", text);
    }
}

#[test]
fn title_with_a_line_feed_is_not_read_back() {
    let mut task = standup();
    task.title = "stand\nup".to_string();
    assert_eq!(read_record(&format_record(&task)), Err(TaskError::Serialization));
}

#[test]
fn records_follow_one_another() {
    let mut other = standup();
    other.id = 13;
    other.title = "retro".to_string();
    other.frequency_minutes = None;
    let tasks = vec![standup(), other];
    let text = format_records(&tasks);
    assert_eq!(text, format!("{}{}", STANDUP, format_record(&tasks[1])));
    assert_eq!(read_records(&text), Ok(tasks));
}

#[test]
fn no_records_are_the_empty_text() {
    assert_eq!(format_records(&Vec::new()), "");
    assert_eq!(read_records(""), Ok(Vec::new()));
}

#[test]
fn read_records_rejects_a_broken_tail() {
    assert_eq!(read_records(&format!("{}- ID: 1\n", STANDUP)), Err(TaskError::Serialization));
    assert_eq!(read_records(&format!("{}\n", STANDUP)), Err(TaskError::Serialization));
    assert_eq!(read_records(" "), Err(TaskError::Serialization));
}

#[test]
fn read_records_keeps_the_order_and_repeated_ids() {
    let text = format!("{}{}", STANDUP, STANDUP);
    assert_eq!(read_records(&text), Ok(vec![standup(), standup()]));
}
