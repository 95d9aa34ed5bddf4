//! The layout of the printed list of tasks: which text goes where on which
//! page. Lengths are whole millimetres, measured from the lower left corner
//! of an A4 page.

use crate::task::{Task, TaskView};
use crate::text::{decimal, push_decimal, push_signed_decimal, signed_decimal};
use crate::time::instant_display;
use vstd::prelude::*;
use vstd::string::*;

verus! {

/// The width of an A4 page.
pub const PAGE_WIDTH_MM: u32 = 210;

/// The height of an A4 page.
pub const PAGE_HEIGHT_MM: u32 = 297;

/// The size of the font, in points.
pub const FONT_SIZE_PT: u32 = 12;

/// Every text begins this far from the left edge.
pub const LEFT_MM: u32 = 10;

/// The first text of a page begins at this height.
pub const TOP_MM: u32 = 280;

/// Each text begins this far below the one before.
pub const STEP_MM: u32 = 15;

/// A page is full once the next text would begin below this height.
pub const BOTTOM_MM: u32 = 20;

/// The number of texts that a page takes.
pub const ENTRIES_PER_PAGE: usize = 18;

/// One text of the printed list and its place.
#[derive(Debug, PartialEq, Eq)]
pub struct PdfEntry {
    /// The page, counted from 0.
    pub page: usize,
    /// The height at which the text begins.
    pub y_mm: u32,
    pub text: String,
}

/// What the printed list says of `task`.
pub open spec fn pdf_text(task: TaskView) -> Seq<char> {
    "ID: "@ + decimal(task.id) + "\nTitle: "@ + task.title + "\nDetails: "@ + task.details
        + "\nStart: "@ + instant_display(task.start) + "\nEnd: "@ + instant_display(task.end)
        + "\nRecurring: "@ + (if task.is_recurring {
        "true"@
    } else {
        "false"@
    }) + "\nFrequency: "@ + signed_decimal(
        match task.frequency {
            Some(minutes) => minutes,
            None => 0,
        },
    )
}

/// The page of the text number `index`.
pub open spec fn page_of(index: nat) -> nat {
    index / (ENTRIES_PER_PAGE as nat)
}

/// The height of the text number `index`.
pub open spec fn height_of(index: nat) -> nat {
    (TOP_MM - STEP_MM * (index % (ENTRIES_PER_PAGE as nat))) as nat
}

/// The number of pages of a list of `count` texts. A new page is begun as
/// soon as one is full, so a list that fills its last page ends with an
/// empty one.
pub open spec fn page_count(count: nat) -> nat {
    count / (ENTRIES_PER_PAGE as nat) + 1
}

/// What the printed list says of `task`.
pub fn pdf_text_of(task: &Task) -> (text: String)
    ensures
        text@ == pdf_text(task@),
{
    let mut text = String::from_str("ID: ");
    push_decimal(&mut text, task.id as u64);
    text.append("\nTitle: ");
    text.append(task.title.as_str());
    text.append("\nDetails: ");
    text.append(task.details.as_str());
    text.append("\nStart: ");
    text.append(task.start_time.to_display_text().as_str());
    text.append("\nEnd: ");
    text.append(task.end_time.to_display_text().as_str());
    text.append("\nRecurring: ");
    text.append(if task.is_recurring { "true" } else { "false" });
    text.append("\nFrequency: ");
    push_signed_decimal(
        &mut text,
        match task.frequency_minutes {
            Some(minutes) => minutes,
            None => 0,
        },
    );
    text
}

/// Lays `tasks` out in their order, from the top of the first page down.
/// Also hands back the number of pages.
pub fn pdf_layout(tasks: &Vec<Task>) -> (r: (Vec<PdfEntry>, usize))
    ensures
        r.0.len() == tasks.len(),
        forall|i: int|
            0 <= i < tasks.len() ==> {
                &&& (#[trigger] r.0[i]).page == page_of(i as nat)
                &&& r.0[i].y_mm == height_of(i as nat)
                &&& r.0[i].text@ == pdf_text(tasks[i]@)
            },
        r.1 == page_count(tasks.len() as nat),
{
    let mut entries: Vec<PdfEntry> = Vec::new();
    let mut page: usize = 0;
    let mut y_mm: u32 = TOP_MM;
    let mut n: usize = 0;
    while n < tasks.len()
        invariant
            n <= tasks.len(),
            entries.len() == n,
            page == page_of(n as nat),
            y_mm == height_of(n as nat),
            forall|i: int|
                0 <= i < n ==> {
                    &&& (#[trigger] entries[i]).page == page_of(i as nat)
                    &&& entries[i].y_mm == height_of(i as nat)
                    &&& entries[i].text@ == pdf_text(tasks[i]@)
                },
        decreases tasks.len() - n,
    {
        entries.push(PdfEntry { page, y_mm, text: pdf_text_of(&tasks[n]) });
        y_mm = y_mm - STEP_MM;
        if y_mm < BOTTOM_MM {
            page = page + 1;
            y_mm = TOP_MM;
        }
        n += 1;
    }
    (entries, page + 1)
}

} // verus!
