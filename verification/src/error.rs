//! Failures: what went wrong, and the message that reports it.

use vstd::prelude::*;
use vstd::string::*;

verus! {

/// The ways in which a call can fail. Each of them ends the call, and a call
/// that fails leaves the store as it found it.
#[derive(Clone, Copy, Debug, PartialEq, Eq, Structural)]
pub enum ErrorKind {
    /// An addition left the 128-bit range.
    Overflow,
    /// A holder other than the asset's issuer has less than is to be taken.
    InsufficientBalance,
    /// A mint was already honoured for this block.
    AlreadyMinted,
    /// The contract instance was initialized before.
    AlreadyInitialized,
    /// The total supply has reached its ceiling.
    SupplyExceeded,
    /// No opcode was given, or none that the contract knows.
    UnknownOpcode,
    /// The block that the host supplied could not be read.
    MalformedBlock,
    /// No creation outpoint is recorded for the identity.
    MissingOutpoint,
    /// The bytes recorded as a creation outpoint are too short to be one.
    MalformedOutpoint,
}

impl ErrorKind {
    /// The fixed text that reports this kind of failure.
    pub open spec fn spec_text(self) -> Seq<char> {
        match self {
            ErrorKind::Overflow => "overflow error"@,
            ErrorKind::InsufficientBalance => "insufficient balance"@,
            ErrorKind::AlreadyMinted => "already minted for block "@,
            ErrorKind::AlreadyInitialized => "already initialized"@,
            ErrorKind::SupplyExceeded => "total supply has been reached"@,
            ErrorKind::UnknownOpcode => "unrecognized opcode"@,
            ErrorKind::MalformedBlock => "malformed block"@,
            ErrorKind::MissingOutpoint => "No creation outpoint for alkane id"@,
            ErrorKind::MalformedOutpoint => "malformed creation outpoint"@,
        }
    }

    /// The fixed text that reports this kind of failure.
    pub fn text(&self) -> (text: &'static str)
        ensures
            text@ == self.spec_text(),
    {
        match self {
            ErrorKind::Overflow => "overflow error",
            ErrorKind::InsufficientBalance => "insufficient balance",
            ErrorKind::AlreadyMinted => "already minted for block ",
            ErrorKind::AlreadyInitialized => "already initialized",
            ErrorKind::SupplyExceeded => "total supply has been reached",
            ErrorKind::UnknownOpcode => "unrecognized opcode",
            ErrorKind::MalformedBlock => "malformed block",
            ErrorKind::MissingOutpoint => "No creation outpoint for alkane id",
            ErrorKind::MalformedOutpoint => "malformed creation outpoint",
        }
    }
}

/// The character that stands for `n`, a number below sixteen, in lowercase
/// hexadecimal.
pub open spec fn hex_digit(n: int) -> char {
    "0123456789abcdef"@[n]
}

/// `bytes` in lowercase hexadecimal: two characters for each byte, the high
/// four bits first.
pub open spec fn hex_text(bytes: Seq<u8>) -> Seq<char> {
    Seq::new(
        2 * bytes.len(),
        |i: int|
            if i % 2 == 0 {
                hex_digit(bytes[i / 2] as int / 16)
            } else {
                hex_digit(bytes[i / 2] as int % 16)
            },
    )
}

/// `hex::encode` on a byte string. Trusted: the result is the input in
/// lowercase hexadecimal, two characters for each byte and the high four
/// bits first, as the encoder's character table and iterator give it.
#[verifier::external_body]
fn hex_encode(bytes: &Vec<u8>) -> (text: String)
    ensures
        text@ == hex_text(bytes@),
{
    hex::encode(bytes)
}

/// A failed call: the kind of failure and a message for the caller.
#[derive(Debug)]
pub struct ContractError {
    pub kind: ErrorKind,
    pub message: String,
}

impl ContractError {
    /// Whether this is the failure of `kind` with the fixed text of `kind`
    /// as its message.
    pub open spec fn states(self, kind: ErrorKind) -> bool {
        self.kind == kind && self.message@ == kind.spec_text()
    }

    /// Whether this is the failure of `kind` with `text` as its message.
    /// Some operations report a failure in words of their own.
    pub open spec fn states_as(self, kind: ErrorKind, text: Seq<char>) -> bool {
        self.kind == kind && self.message@ == text
    }

    /// Whether this is the failure of `kind` in a call that deals with the
    /// block of hash `hash`. A mint refused for a block that was seen before
    /// names the block: its message ends in the hexadecimal form of the
    /// hash. Every other kind has its fixed text alone.
    pub open spec fn states_for_block(self, kind: ErrorKind, hash: Seq<u8>) -> bool {
        if kind == ErrorKind::AlreadyMinted {
            self.kind == kind && self.message@ == kind.spec_text() + hex_text(hash)
        } else {
            self.states(kind)
        }
    }

    /// The failure of `kind`, with the fixed text of `kind` as its message.
    pub fn new(kind: ErrorKind) -> (error: ContractError)
        ensures
            error.states(kind),
    {
        ContractError { kind, message: String::from_str(kind.text()) }
    }

    /// The failure of `kind`, with `text` as its message.
    pub fn with_text(kind: ErrorKind, text: &str) -> (error: ContractError)
        ensures
            error.states_as(kind, text@),
    {
        ContractError { kind, message: String::from_str(text) }
    }

    /// The failure of a mint for a block whose hash was seen before.
    pub fn already_minted(hash: &Vec<u8>) -> (error: ContractError)
        ensures
            error.states_for_block(ErrorKind::AlreadyMinted, hash@),
    {
        let mut message = String::from_str(ErrorKind::AlreadyMinted.text());
        let block = hex_encode(hash);
        message.append(block.as_str());
        ContractError { kind: ErrorKind::AlreadyMinted, message }
    }
}

/// Whether `result` is the failure of `kind` in a call that deals with the
/// block of hash `hash`.
pub open spec fn failed_for_block<T>(
    result: Result<T, ContractError>,
    kind: ErrorKind,
    hash: Seq<u8>,
) -> bool {
    result is Err && result->Err_0.states_for_block(kind, hash)
}

} // verus!
