//! The predicates that the vector store is asked with.

use vstd::prelude::*;
use vstd::string::StrSliceExecFns;
use crate::text::{append_chars, chars_of, string_from_chars};

verus! {

/// The name of the table that holds the chunks.
pub fn table_name() -> (name: String)
    ensures
        name@ == "code_chunks"@,
{
    "code_chunks".to_owned()
}

/// The first `n` characters of `text` with every single quote doubled.
pub open spec fn quoted_upto(text: Seq<char>, n: int) -> Seq<char>
    decreases n,
{
    if n <= 0 {
        Seq::empty()
    } else if text[n - 1] == '\'' {
        quoted_upto(text, n - 1).push('\'').push('\'')
    } else {
        quoted_upto(text, n - 1).push(text[n - 1])
    }
}

/// `text` as the inside of a string literal of a predicate: every single
/// quote doubled.
pub open spec fn quoted(text: Seq<char>) -> Seq<char> {
    quoted_upto(text, text.len() as int)
}

/// The predicate that holds of the rows of one attribute value:
/// the attribute, an equals sign, and the value as a string literal.
pub open spec fn equals_clause(attribute: Seq<char>, value: Seq<char>) -> Seq<char> {
    attribute + seq![' ', '=', ' ', '\''] + quoted(value) + seq!['\'']
}

/// The predicate that holds of the rows of one file.
pub open spec fn filename_clause(filename: Seq<char>) -> Seq<char> {
    equals_clause("filename"@, filename)
}

/// The predicate that holds of the rows of one workspace.
pub open spec fn workspace_clause(workspace: Seq<char>) -> Seq<char> {
    equals_clause("workspace"@, workspace)
}

/// The predicate that holds of the rows of one file in one workspace.
pub open spec fn delete_clause(workspace: Seq<char>, filename: Seq<char>) -> Seq<char> {
    workspace_clause(workspace) + seq![' ', 'A', 'N', 'D', ' '] + filename_clause(filename)
}

/// Computes `quoted`.
pub fn quote(text: &str) -> (out: Vec<char>)
    ensures
        out@ == quoted(text@),
{
    let chars = chars_of(text);
    let mut out: Vec<char> = Vec::new();
    let mut n: usize = 0;
    while n < chars.len()
        invariant
            n <= chars.len(),
            out@ == quoted_upto(chars@, n as int),
        decreases chars.len() - n,
    {
        if chars[n] == '\'' {
            out.push('\'');
            out.push('\'');
        } else {
            out.push(chars[n]);
        }
        n += 1;
    }
    out
}

/// Builds an `equals_clause`.
fn equals(attribute: &str, value: &str) -> (clause: Vec<char>)
    ensures
        clause@ == equals_clause(attribute@, value@),
{
    let mut clause = chars_of(attribute);
    clause.push(' ');
    clause.push('=');
    clause.push(' ');
    clause.push('\'');
    append_chars(&mut clause, &quote(value));
    clause.push('\'');
    assert(clause@ =~= equals_clause(attribute@, value@));
    clause
}

/// The predicate for the rows of one file.
pub fn filename_predicate(filename: &str) -> (predicate: String)
    ensures
        predicate@ == filename_clause(filename@),
{
    string_from_chars(&equals("filename", filename))
}

/// The predicate for the rows of one workspace.
pub fn workspace_predicate(workspace: &str) -> (predicate: String)
    ensures
        predicate@ == workspace_clause(workspace@),
{
    string_from_chars(&equals("workspace", workspace))
}

/// The predicate for the rows of one file in one workspace.
pub fn delete_predicate(workspace: &str, filename: &str) -> (predicate: String)
    ensures
        predicate@ == delete_clause(workspace@, filename@),
{
    let mut clause = equals("workspace", workspace);
    clause.push(' ');
    clause.push('A');
    clause.push('N');
    clause.push('D');
    clause.push(' ');
    append_chars(&mut clause, &equals("filename", filename));
    assert(clause@ =~= delete_clause(workspace@, filename@));
    string_from_chars(&clause)
}

/// Why a batch of rows is not written to the store.
#[derive(Clone, Copy, Debug, PartialEq, Eq, Structural)]
pub enum BatchError {
    /// The rows name no workspace.
    NoWorkspace,
    /// There is not one vector for each row.
    CountMismatch,
    /// A vector is not as wide as the store's vectors.
    WidthMismatch,
}

/// Whether a batch may be written: `Ok` if the workspace has a name, there
/// is one vector for each row and every vector is `dim` wide; else what is
/// wrong, the first of the three that is.
pub open spec fn batch_check(workspace: Seq<char>, rows: int, widths: Seq<usize>, dim: int) -> Result<
    (),
    BatchError,
> {
    if workspace.len() == 0 {
        Err(BatchError::NoWorkspace)
    } else if widths.len() != rows {
        Err(BatchError::CountMismatch)
    } else if exists|i: int| 0 <= i < widths.len() && widths[i] != dim {
        Err(BatchError::WidthMismatch)
    } else {
        Ok(())
    }
}

/// Checks a batch of `rows` rows before it is written: `widths` holds the
/// width of the vector of each row, `dim` the width of the store's vectors.
pub fn check_batch(workspace: &str, rows: usize, widths: &Vec<usize>, dim: usize) -> (checked: Result<
    (),
    BatchError,
>)
    ensures
        checked == batch_check(workspace@, rows as int, widths@, dim as int),
{
    if workspace.unicode_len() == 0 {
        return Err(BatchError::NoWorkspace);
    }
    if widths.len() != rows {
        return Err(BatchError::CountMismatch);
    }
    let mut i: usize = 0;
    while i < widths.len()
        invariant
            i <= widths.len(),
            workspace@.len() != 0,
            widths.len() == rows,
            forall|j: int| 0 <= j < i ==> widths@[j] == dim,
        decreases widths.len() - i,
    {
        if widths[i] != dim {
            assert(widths@[i as int] != dim);
            return Err(BatchError::WidthMismatch);
        }
        i += 1;
    }
    Ok(())
}

} // verus!
