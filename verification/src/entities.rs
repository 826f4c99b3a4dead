//! The values that callers hand to the store and get back from it.

use vstd::prelude::*;

verus! {

/// What a [`Pair`] is in contracts: its fields, the texts as character sequences.
pub struct PairView {
    pub id: Seq<char>,
    pub base: Seq<char>,
    pub comparison: Seq<char>,
    pub value: u64,
    pub created_at: Seq<char>,
    pub updated_at: Seq<char>,
}

/// A single tracked value. `value` holds the IEEE 754 binary64 bit pattern of
/// the number, so that the store carries it through unchanged.
#[derive(Clone, Debug, PartialEq, Eq)]
pub struct Pair {
    pub id: String,
    pub base: String,
    pub comparison: String,
    pub value: u64,
    pub created_at: String,
    pub updated_at: String,
}

impl View for Pair {
    type V = PairView;

    open spec fn view(&self) -> PairView {
        PairView {
            id: self.id@,
            base: self.base@,
            comparison: self.comparison@,
            value: self.value,
            created_at: self.created_at@,
            updated_at: self.updated_at@,
        }
    }
}

/// What a [`PairGroup`] is in contracts.
pub struct PairGroupView {
    pub id: Seq<char>,
    pub is_pinned: bool,
    pub pairs: Seq<PairView>,
    pub created_at: Seq<char>,
    pub updated_at: Seq<char>,
}

/// A named, pinnable collection of fully populated pairs.
#[derive(Clone, Debug, PartialEq, Eq)]
pub struct PairGroup {
    pub id: String,
    pub is_pinned: bool,
    pub pairs: Vec<Pair>,
    pub created_at: String,
    pub updated_at: String,
}

impl View for PairGroup {
    type V = PairGroupView;

    open spec fn view(&self) -> PairGroupView {
        PairGroupView {
            id: self.id@,
            is_pinned: self.is_pinned,
            pairs: self.pairs@.map_values(|p: Pair| p@),
            created_at: self.created_at@,
            updated_at: self.updated_at@,
        }
    }
}

/// The one error kind of the store: a message that says what went wrong.
#[derive(Clone, Debug, PartialEq, Eq)]
pub struct Error {
    pub message: String,
}

/// The message for a file that the directory does not hold.
pub open spec fn not_found_message() -> Seq<char> {
    "No such file or directory (os error 2)"@
}

/// The message for an update of a pair group that was never written.
pub open spec fn missing_group_message() -> Seq<char> {
    "Pair group to update does not exist!"@
}

/// The two failures that the store words itself can be told apart.
pub proof fn lemma_messages_differ()
    ensures
        not_found_message() != missing_group_message(),
{
    reveal_strlit("No such file or directory (os error 2)");
    reveal_strlit("Pair group to update does not exist!");
    assert(not_found_message().len() != missing_group_message().len());
}

impl Error {
    /// An error that carries a copy of `message`.
    pub fn with_message(message: &str) -> (e: Error)
        ensures
            e.message@ == message@,
    {
        Error { message: message.to_owned() }
    }

    /// The error for a file that the directory does not hold.
    pub fn not_found() -> (e: Error)
        ensures
            e.message@ == not_found_message(),
    {
        Error::with_message("No such file or directory (os error 2)")
    }

    /// The error for an update of a pair group that was never written.
    pub fn missing_group() -> (e: Error)
        ensures
            e.message@ == missing_group_message(),
    {
        Error::with_message("Pair group to update does not exist!")
    }

    /// The message as an owned text.
    pub fn to_text(&self) -> (text: String)
        ensures
            text@ == self.message@,
    {
        self.message.clone()
    }
}

} // verus!
