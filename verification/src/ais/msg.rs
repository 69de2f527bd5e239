use vstd::prelude::*;
use crate::error::{AgentError, gives};

verus! {

/// One part of the content of a thread message.
pub enum MsgContent {
    /// Text, with its value.
    Text(String),
    /// An image, with the id of its file.
    ImageFile(String),
}

/// What the library reads of a message of a thread: its content parts, in
/// order.
pub struct ThreadMsg {
    pub content: Vec<MsgContent>,
}

/// The text of a message: that of its first content part, which must be
/// text.
pub open spec fn spec_text_content(msg: ThreadMsg) -> Result<Seq<char>, Seq<char>> {
    if msg.content@.len() == 0 {
        Err("No message content found"@)
    } else {
        match msg.content@[0] {
            MsgContent::Text(t) => Ok(t@),
            MsgContent::ImageFile(_) => Err("Message image not supported yet"@),
        }
    }
}

/// The text of a message (that of its first content part).
pub fn get_text_content(msg: ThreadMsg) -> (r: Result<String, AgentError>)
    ensures
        gives(r, spec_text_content(msg)),
{
    let mut content = msg.content;
    if content.len() == 0 {
        return Err(AgentError::Message("No message content found".to_owned()));
    }
    match content.remove(0) {
        MsgContent::Text(t) => Ok(t),
        MsgContent::ImageFile(_) => Err(AgentError::Message("Message image not supported yet".to_owned())),
    }
}

} // verus!
