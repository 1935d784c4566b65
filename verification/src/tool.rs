//! The interface to the page tool: the arguments it is called with, and what
//! its output says.
//!
//! The tool is called twice over: once to count the pages of the reference
//! document, and once for each target to merge. The calls themselves are the
//! caller's; the library says what is asked and reads what is answered.

use vstd::prelude::*;
use crate::decimal::{decimal, decimal_value, parse_digits, unsigned_text};
use crate::text::{chars_of, trim, trim_bounds};

verus! {

/// The texts of a list of arguments.
pub open spec fn texts(args: Seq<String>) -> Seq<Seq<char>> {
    args.map_values(|arg: String| arg@)
}

/// The arguments that ask for the number of pages of `document`.
pub fn page_count_arguments(document: &str) -> (args: Vec<String>)
    ensures
        texts(args@) == seq!["--show-npages"@, document@],
{
    let mut args: Vec<String> = Vec::new();
    args.push("--show-npages".to_owned());
    args.push(document.to_owned());
    assert(texts(args@) =~= seq!["--show-npages"@, document@]);
    args
}

/// The arguments that ask for the merge of one target: a new document at
/// `output` that holds the page `page_number` of `reference`, counted from 1,
/// and then all pages of `target`. Warnings of the tool are not to count as
/// failures.
pub fn merge_arguments(reference: &str, page_number: u64, target: &str, output: &str) -> (args:
    Vec<String>)
    ensures
        texts(args@) == seq![
            "--warning-exit-0"@,
            "--empty"@,
            "--pages"@,
            reference@,
            decimal(page_number as int),
            target@,
            "--"@,
            output@,
        ],
{
    let mut args: Vec<String> = Vec::new();
    args.push("--warning-exit-0".to_owned());
    args.push("--empty".to_owned());
    args.push("--pages".to_owned());
    args.push(reference.to_owned());
    args.push(unsigned_text(page_number));
    args.push(target.to_owned());
    args.push("--".to_owned());
    args.push(output.to_owned());
    assert(texts(args@) =~= seq![
        "--warning-exit-0"@,
        "--empty"@,
        "--pages"@,
        reference@,
        decimal(page_number as int),
        target@,
        "--"@,
        output@,
    ]);
    args
}

/// The name of the temporary output of the process `process_id`. Two
/// processes never share it; two merges of one process do.
pub fn temporary_output_name(process_id: u32) -> (name: String)
    ensures
        name@ == "merged_output_"@ + decimal(process_id as int) + ".pdf"@,
{
    let name = "merged_output_".to_owned();
    let name = name.concat(unsigned_text(process_id as u64).as_str());
    name.concat(".pdf")
}

/// The number that the tool's answer to a page count writes: the answer,
/// without the white space around it, is one digit or more, after a plus
/// sign or without one.
pub open spec fn page_count_of(answer: Seq<char>) -> Option<nat> {
    let text = trim(answer);
    if text.len() > 0 && text.first() == '+' {
        decimal_value(text.drop_first())
    } else {
        decimal_value(text)
    }
}

/// Why the pages of a document could not be counted.
#[derive(Debug, PartialEq, Eq)]
pub enum PageCountError {
    /// The tool reported a failure.
    ToolFailed {
        /// What the tool said.
        diagnostic: String,
    },
    /// The tool's answer is no number, or one too large to hold.
    NotANumber,
}

/// Reads the tool's answer to a page count.
pub fn parse_page_count(answer: &str) -> (r: Option<usize>)
    ensures
        r == match page_count_of(answer@) {
            Some(count) => if count <= usize::MAX {
                Some(count as usize)
            } else {
                None
            },
            None => None,
        },
{
    let chars = chars_of(answer);
    assert(chars@.subrange(0, chars.len() as int) == chars@);
    let (start, end) = trim_bounds(&chars, 0, chars.len());
    let ghost text = chars@.subrange(start as int, end as int);
    let from: usize = if start < end && chars[start] == '+' {
        start + 1
    } else {
        start
    };
    assert(chars@.subrange(from as int, end as int) == if text.len() > 0 && text.first() == '+' {
        text.drop_first()
    } else {
        text
    });
    match parse_digits(&chars, from, end, usize::MAX as u64) {
        Some(count) => Some(count as usize),
        None => None,
    }
}

/// The number of pages of a document, from what came of the tool's run:
/// whether it reported success, what it answered, and what it said of any
/// failure.
pub fn page_count_from(success: bool, answer: &str, diagnostic: String) -> (r: Result<
    usize,
    PageCountError,
>)
    ensures
        r == if !success {
            Err::<usize, PageCountError>(PageCountError::ToolFailed { diagnostic })
        } else {
            match page_count_of(answer@) {
                Some(count) => if count <= usize::MAX {
                    Ok(count as usize)
                } else {
                    Err(PageCountError::NotANumber)
                },
                None => Err(PageCountError::NotANumber),
            }
        },
{
    if !success {
        return Err(PageCountError::ToolFailed { diagnostic });
    }
    match parse_page_count(answer) {
        Some(count) => Ok(count),
        None => Err(PageCountError::NotANumber),
    }
}

} // verus!
