//! What can go wrong, and how it is told.
use crate::hex_text::{char_debug, hex_error_message, hex_error_text, HexError};
use crate::text::{decimal, decimal_text};
use vstd::prelude::*;
use vstd::string::StringExecFns;

verus! {

/// Why the rows of a CSV text cannot all be hashed.
#[derive(Clone, Debug)]
pub enum CsvError {
    /// The text holds a record that cannot be read.
    Malformed { message: String },
    /// The canonical line of a record is too long for SHA-256.
    LineTooLong,
}

/// A [`CsvError`] in mathematical terms.
pub enum CsvErrorView {
    Malformed { message: Seq<char> },
    LineTooLong,
}

impl View for CsvError {
    type V = CsvErrorView;

    open spec fn view(&self) -> CsvErrorView {
        match self {
            CsvError::Malformed { message } => CsvErrorView::Malformed { message: message@ },
            CsvError::LineTooLong => CsvErrorView::LineTooLong,
        }
    }
}

/// Why a row does not give a digest when hashed rows are read.
#[derive(Clone, Debug)]
pub enum ReadHashError {
    /// The text holds a record that cannot be read.
    Malformed { message: String },
    /// The row has no fields.
    EmptyRow { row: usize },
    /// The row has no such column.
    ColumnOutOfRange { row: usize, columns: usize, column: usize },
    /// The field, trimmed, does not have 64 bytes.
    WrongLength { row: usize, length: usize },
    /// The field, trimmed, is not hexadecimal.
    NotHex { row: usize, value: String, cause: HexError },
}

/// A [`ReadHashError`] in mathematical terms.
pub enum ReadHashErrorView {
    Malformed { message: Seq<char> },
    EmptyRow { row: nat },
    ColumnOutOfRange { row: nat, columns: nat, column: nat },
    WrongLength { row: nat, length: nat },
    NotHex { row: nat, value: Seq<char>, cause: HexError },
}

impl View for ReadHashError {
    type V = ReadHashErrorView;

    open spec fn view(&self) -> ReadHashErrorView {
        match self {
            ReadHashError::Malformed { message } => ReadHashErrorView::Malformed {
                message: message@,
            },
            ReadHashError::EmptyRow { row } => ReadHashErrorView::EmptyRow { row: *row as nat },
            ReadHashError::ColumnOutOfRange { row, columns, column } => {
                ReadHashErrorView::ColumnOutOfRange {
                    row: *row as nat,
                    columns: *columns as nat,
                    column: *column as nat,
                }
            },
            ReadHashError::WrongLength { row, length } => ReadHashErrorView::WrongLength {
                row: *row as nat,
                length: *length as nat,
            },
            ReadHashError::NotHex { row, value, cause } => ReadHashErrorView::NotHex {
                row: *row as nat,
                value: value@,
                cause: *cause,
            },
        }
    }
}

/// The message of a [`CsvError`].
pub open spec fn csv_error_text(e: CsvErrorView) -> Seq<char> {
    match e {
        CsvErrorView::Malformed { message } => message,
        CsvErrorView::LineTooLong => "The canonical line of a record is too long for SHA-256."@,
    }
}

/// The message of a [`ReadHashError`].
pub open spec fn read_hash_error_text(e: ReadHashErrorView) -> Seq<char> {
    match e {
        ReadHashErrorView::Malformed { message } => message,
        ReadHashErrorView::EmptyRow { row } => {
            "Row "@ + decimal(row) + " is empty; cannot read hash column."@
        },
        ReadHashErrorView::ColumnOutOfRange { row, columns, column } => {
            "Row "@ + decimal(row) + " has "@ + decimal(columns)
                + " columns; requested hash column "@ + decimal(column) + " is out of range."@
        },
        ReadHashErrorView::WrongLength { row, length } => {
            "Row "@ + decimal(row) + " hash value length is "@ + decimal(length)
                + "; expected 64 hex chars."@
        },
        ReadHashErrorView::NotHex { row, value, cause } => {
            "Row "@ + decimal(row) + " hash is not valid hex ("@ + value + "): "@
                + hex_error_message(cause, char_debug(cause->c))
        },
    }
}

impl CsvError {
    /// The message for the user.
    pub fn message(&self) -> (text: String)
        ensures
            text@ == csv_error_text(self@),
    {
        match self {
            CsvError::Malformed { message } => message.clone(),
            CsvError::LineTooLong => {
                "The canonical line of a record is too long for SHA-256.".to_owned()
            },
        }
    }
}

impl ReadHashError {
    /// The message for the user.
    pub fn message(&self) -> (text: String)
        ensures
            text@ == read_hash_error_text(self@),
    {
        let mut text = "Row ".to_owned();
        match self {
            ReadHashError::Malformed { message } => {
                return message.clone();
            },
            ReadHashError::EmptyRow { row } => {
                text.append(decimal_text(*row).as_str());
                text.append(" is empty; cannot read hash column.");
            },
            ReadHashError::ColumnOutOfRange { row, columns, column } => {
                text.append(decimal_text(*row).as_str());
                text.append(" has ");
                text.append(decimal_text(*columns).as_str());
                text.append(" columns; requested hash column ");
                text.append(decimal_text(*column).as_str());
                text.append(" is out of range.");
            },
            ReadHashError::WrongLength { row, length } => {
                text.append(decimal_text(*row).as_str());
                text.append(" hash value length is ");
                text.append(decimal_text(*length).as_str());
                text.append("; expected 64 hex chars.");
            },
            ReadHashError::NotHex { row, value, cause } => {
                text.append(decimal_text(*row).as_str());
                text.append(" hash is not valid hex (");
                text.append(value.as_str());
                text.append("): ");
                text.append(hex_error_text(*cause).as_str());
            },
        }
        text
    }
}

/// The mathematical terms of an error keep its kind, its row and whatever else it
/// tells.
pub proof fn law_errors_keep_what_they_tell(e: ReadHashError, c: CsvError)
    ensures
        match e {
            ReadHashError::Malformed { message } => e@ == (ReadHashErrorView::Malformed {
                message: message@,
            }),
            ReadHashError::EmptyRow { row } => e@ == (ReadHashErrorView::EmptyRow {
                row: row as nat,
            }),
            ReadHashError::ColumnOutOfRange { row, columns, column } => e@ == (
            ReadHashErrorView::ColumnOutOfRange {
                row: row as nat,
                columns: columns as nat,
                column: column as nat,
            }),
            ReadHashError::WrongLength { row, length } => e@ == (ReadHashErrorView::WrongLength {
                row: row as nat,
                length: length as nat,
            }),
            ReadHashError::NotHex { row, value, cause } => e@ == (ReadHashErrorView::NotHex {
                row: row as nat,
                value: value@,
                cause,
            }),
        },
        match c {
            CsvError::Malformed { message } => c@ == (CsvErrorView::Malformed {
                message: message@,
            }),
            CsvError::LineTooLong => c@ == CsvErrorView::LineTooLong,
        },
{
}

/// A message names the row, counted from 1, in decimal, and what is wrong with it;
/// of a record that cannot be read it is the message of the reader, unchanged.
pub proof fn law_messages_name_the_row(
    row: nat,
    columns: nat,
    column: nat,
    value: Seq<char>,
    message: Seq<char>,
    c: char,
    index: usize,
)
    ensures
        read_hash_error_text(ReadHashErrorView::EmptyRow { row }) == "Row "@ + decimal(row)
            + " is empty; cannot read hash column."@,
        read_hash_error_text(ReadHashErrorView::ColumnOutOfRange { row, columns, column })
            == "Row "@ + decimal(row) + " has "@ + decimal(columns)
            + " columns; requested hash column "@ + decimal(column) + " is out of range."@,
        read_hash_error_text(ReadHashErrorView::WrongLength { row, length: columns }) == "Row "@
            + decimal(row) + " hash value length is "@ + decimal(columns)
            + "; expected 64 hex chars."@,
        read_hash_error_text(
            ReadHashErrorView::NotHex {
                row,
                value,
                cause: HexError::InvalidHexCharacter { c, index },
            },
        ) == "Row "@ + decimal(row) + " hash is not valid hex ("@ + value + "): "@ + (
        "Invalid character "@ + char_debug(c) + " at position "@ + decimal(index as nat)),
        read_hash_error_text(
            ReadHashErrorView::NotHex { row, value, cause: HexError::OddLength },
        ) == "Row "@ + decimal(row) + " hash is not valid hex ("@ + value + "): "@
            + "Odd number of digits"@,
        read_hash_error_text(
            ReadHashErrorView::NotHex { row, value, cause: HexError::InvalidStringLength },
        ) == "Row "@ + decimal(row) + " hash is not valid hex ("@ + value + "): "@
            + "Invalid string length"@,
        read_hash_error_text(ReadHashErrorView::Malformed { message }) == message,
        csv_error_text(CsvErrorView::Malformed { message }) == message,
{
}

} // verus!
