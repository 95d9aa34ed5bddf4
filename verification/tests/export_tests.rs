use todo_tasks::export::{
    pdf_layout, pdf_text_of, PdfEntry, BOTTOM_MM, ENTRIES_PER_PAGE, LEFT_MM, STEP_MM, TOP_MM,
};
use todo_tasks::store::AppState;
use todo_tasks::task::Task;
use todo_tasks::time::Timestamp;

fn at(secs: i64) -> Timestamp {
    Timestamp::new(secs, 0).unwrap()
}

fn task(n: usize) -> Task {
    let mut t = Task::new(format!("t{}", n), "d".to_string(), at(1_431_648_000), at(1_431_648_060), false, None);
    t.id = n;
    t
}

#[test]
fn text_lists_the_fields() {
    let mut t = Task::new(
        "standup".to_string(),
        "daily".to_string(),
        at(1_431_648_000),
        at(1_431_648_060),
        true,
        Some(-30),
    );
    t.id = 3;
    assert_eq!(
        pdf_text_of(&t),
        "ID: 3\nTitle: standup\nDetails: daily\nStart: 2015-05-15 00:00:00 UTC\nEnd: 2015-05-15 00:01:00 UTC\nRecurring: true\nFrequency: -30"
    );
}

#[test]
fn text_writes_a_missing_frequency_as_zero() {
    assert!(pdf_text_of(&task(1)).ends_with("\nRecurring: false\nFrequency: 0"));
}

#[test]
fn measures_fit_eighteen_texts_on_a_page() {
    assert_eq!((LEFT_MM, TOP_MM, STEP_MM, BOTTOM_MM), (10, 280, 15, 20));
    assert_eq!(ENTRIES_PER_PAGE, 18);
    assert!(TOP_MM - 17 * STEP_MM >= BOTTOM_MM);
    assert!(TOP_MM - 18 * STEP_MM < BOTTOM_MM);
}

#[test]
fn empty_list_has_one_page() {
    assert_eq!(pdf_layout(&Vec::new()), (Vec::new(), 1));
}

#[test]
fn texts_go_down_the_page() {
    let tasks: Vec<Task> = (1..=3).map(task).collect();
    let (entries, pages) = pdf_layout(&tasks);
    assert_eq!(pages, 1);
    assert_eq!(
        entries,
        vec![
            PdfEntry { page: 0, y_mm: 280, text: pdf_text_of(&tasks[0]) },
            PdfEntry { page: 0, y_mm: 265, text: pdf_text_of(&tasks[1]) },
            PdfEntry { page: 0, y_mm: 250, text: pdf_text_of(&tasks[2]) },
        ]
    );
}

#[test]
fn full_page_is_followed_by_a_new_one() {
    let tasks: Vec<Task> = (1..=18).map(task).collect();
    let (entries, pages) = pdf_layout(&tasks);
    assert_eq!(pages, 2);
    assert_eq!((entries[17].page, entries[17].y_mm), (0, 25));
    let tasks: Vec<Task> = (1..=37).map(task).collect();
    let (entries, pages) = pdf_layout(&tasks);
    assert_eq!(pages, 3);
    assert_eq!((entries[18].page, entries[18].y_mm), (1, 280));
    assert_eq!((entries[35].page, entries[35].y_mm), (1, 25));
    assert_eq!((entries[36].page, entries[36].y_mm), (2, 280));
}

#[test]
fn store_is_laid_out_in_order_of_id() {
    let mut state = AppState::new("done".to_string());
    for n in 1..=20 {
        state.add_task(task(n)).unwrap();
    }
    state.delete_task(2).unwrap();
    let (entries, pages) = state.export_to_pdf();
    assert_eq!(pages, 2);
    assert_eq!(entries.len(), 19);
    assert_eq!(entries[0].text, pdf_text_of(&task(1)));
    assert_eq!(entries[1].text, pdf_text_of(&task(3)));
    assert_eq!((entries[18].page, entries[18].y_mm), (1, 280));
    assert_eq!(entries[18].text, pdf_text_of(&task(20)));
}
