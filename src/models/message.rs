//! Messages posted in channels.
use vstd::prelude::*;

verus! {

/// A message that `user_id` posted in `channel_id`.
#[derive(Clone, Debug, PartialEq, Eq)]
pub struct Message {
    pub id: u64,
    pub user_id: u64,
    pub channel_id: u64,
    pub content: String,
}

/// A change to a message; `None` keeps the current content.
#[derive(Clone, Debug, PartialEq, Eq)]
pub struct Patch {
    pub content: Option<String>,
}

/// A message to post.
#[derive(Clone, Debug, PartialEq, Eq)]
pub struct Insert {
    pub content: String,
}

impl Message {
    /// The change that would give another message this one's content.
    pub fn to_patch(&self) -> (r: Patch)
        ensures
            r.content == Some(self.content),
    {
        Patch { content: Some(self.content.clone()) }
    }

    /// The post that would recreate this message's content.
    pub fn to_insert(&self) -> (r: Insert)
        ensures
            r.content == self.content,
    {
        Insert { content: self.content.clone() }
    }
}

} // verus!
