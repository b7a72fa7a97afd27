use vstd::prelude::*;

verus! {

/// The kind of a transient message shown to the user.
#[derive(Debug, Clone, Copy, PartialEq, Eq, Structural)]
pub enum MessageType {
    Success,
    Error,
}

impl MessageType {
    /// The title shown above a message of this kind.
    pub open spec fn title_spec(self) -> Seq<char> {
        match self {
            MessageType::Success => "Success"@,
            MessageType::Error => "Error"@,
        }
    }

    /// The title shown above a message of this kind.
    pub fn title(&self) -> (r: String)
        ensures
            r@ == self.title_spec(),
    {
        match self {
            MessageType::Success => "Success".to_owned(),
            MessageType::Error => "Error".to_owned(),
        }
    }
}

} // verus!
