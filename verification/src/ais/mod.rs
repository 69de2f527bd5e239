//! The assistant side: identifiers, assistant and file bookkeeping, runs and
//! thread messages.

pub mod asst;
pub mod msg;
