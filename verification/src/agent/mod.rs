//! The agent: a directory with its configuration, the assistant it drives,
//! and its conversations.

pub mod config;

use vstd::prelude::*;
use self::config::Config;
use crate::ais::asst::{AsstId, ThreadId};
use crate::utils::files::{join_path, spec_join, lemma_join_extends};

verus! {

/// An agent: its directory, the client it reaches the service with (of type
/// `C`, carried for the caller), its assistant and its configuration.
pub struct Agent<C> {
    dir: String,
    oac: C,
    asst_id: AsstId,
    config: Config,
}

/// A conversation: a thread of the service.
pub struct Conv {
    thread_id: ThreadId,
}

impl From<ThreadId> for Conv {
    fn from(thread_id: ThreadId) -> (r: Conv)
        ensures
            r.spec_thread_id() == thread_id@,
    {
        Conv { thread_id }
    }
}

impl vstd::std_specs::convert::FromSpecImpl<ThreadId> for Conv {
    open spec fn obeys_from_spec() -> bool {
        true
    }

    closed spec fn from_spec(v: ThreadId) -> Conv {
        Conv { thread_id: v }
    }
}

impl Conv {
    /// The id of the conversation's thread.
    pub closed spec fn spec_thread_id(&self) -> Seq<char> {
        self.thread_id@
    }

    /// The conversation's thread.
    pub fn thread_id(&self) -> (r: &ThreadId)
        ensures
            r@ == self.spec_thread_id(),
    {
        &self.thread_id
    }
}

impl<C> Agent<C> {
    /// The agent's directory.
    pub closed spec fn spec_dir(&self) -> Seq<char> {
        self.dir@
    }

    /// The agent's name, from its configuration.
    pub closed spec fn spec_name(&self) -> Seq<char> {
        self.config.name@
    }

    /// The model named in the configuration.
    pub closed spec fn spec_model(&self) -> Seq<char> {
        self.config.model@
    }

    /// The instructions file named in the configuration.
    pub closed spec fn spec_instructions_file(&self) -> Seq<char> {
        self.config.instructions_file@
    }

    /// The agent's assistant.
    pub closed spec fn spec_asst_id(&self) -> Seq<char> {
        self.asst_id@
    }

    /// The agent's client.
    pub closed spec fn spec_oac(&self) -> C {
        self.oac
    }

    /// The agent's data directory: `.agent` in its directory.
    pub open spec fn spec_data_dir(&self) -> Seq<char> {
        spec_join(self.spec_dir(), ".agent"@)
    }

    /// An agent of directory `dir`, reaching the service through `oac`,
    /// driving assistant `asst_id`, configured by `config`.
    pub fn new(dir: &str, oac: C, asst_id: AsstId, config: Config) -> (r: Agent<C>)
        ensures
            r.spec_dir() == dir@,
            r.spec_name() == config.name@,
            r.spec_model() == config.model@,
            r.spec_instructions_file() == config.instructions_file@,
            r.spec_asst_id() == asst_id@,
            r.spec_oac() == oac,
    {
        Agent { dir: dir.to_owned(), oac, asst_id, config }
    }

    /// The agent's name.
    pub fn name(&self) -> (r: &str)
        ensures
            r@ == self.spec_name(),
    {
        self.config.name.as_str()
    }

    /// The client the agent reaches the service with.
    pub fn oac(&self) -> (r: &C)
        ensures
            *r == self.spec_oac(),
    {
        &self.oac
    }

    /// The agent's assistant.
    pub fn asst_id(&self) -> (r: &AsstId)
        ensures
            r@ == self.spec_asst_id(),
    {
        &self.asst_id
    }

    /// The agent's configuration.
    pub fn config(&self) -> (r: &Config)
        ensures
            r.name@ == self.spec_name(),
            r.model@ == self.spec_model(),
            r.instructions_file@ == self.spec_instructions_file(),
    {
        &self.config
    }

    /// The file of the assistant's instructions: the configured file, in the
    /// agent's directory.
    pub fn instructions_path(&self) -> (r: String)
        ensures
            r@ == spec_join(self.spec_dir(), self.spec_instructions_file()),
    {
        join_path(self.dir.as_str(), self.config.instructions_file.as_str())
    }

    /// The agent's data directory: `.agent` in its directory.
    pub fn data_dir(&self) -> (r: String)
        ensures
            r@ == self.spec_data_dir(),
    {
        join_path(self.dir.as_str(), ".agent")
    }

    /// The directory of the agent's data files: `files` in its data
    /// directory.
    pub fn data_files_dir(&self) -> (r: String)
        ensures
            r@ == spec_join(self.spec_data_dir(), "files"@),
    {
        let data_dir = self.data_dir();
        join_path(data_dir.as_str(), "files")
    }

    /// The file that holds the agent's conversation: `conv.json` in its data
    /// directory.
    pub fn conv_file(&self) -> (r: String)
        ensures
            r@ == spec_join(self.spec_data_dir(), "conv.json"@),
    {
        let data_dir = self.data_dir();
        join_path(data_dir.as_str(), "conv.json")
    }
}

/// What to do to have the agent's conversation.
pub enum ConvPlan {
    /// Remove the conversation file, then create a new thread and save it.
    RemoveAndCreate,
    /// Check that the thread loaded from the file still exists, and use it.
    Verify(ThreadId),
    /// Create a new thread and save it.
    Create,
}

/// The mathematical value of a [`ConvPlan`].
pub enum ConvPlanView {
    RemoveAndCreate,
    Verify(Seq<char>),
    Create,
}

impl View for ConvPlan {
    type V = ConvPlanView;

    open spec fn view(&self) -> ConvPlanView {
        match self {
            ConvPlan::RemoveAndCreate => ConvPlanView::RemoveAndCreate,
            ConvPlan::Verify(id) => ConvPlanView::Verify(id@),
            ConvPlan::Create => ConvPlanView::Create,
        }
    }
}

/// How to have the agent's conversation: with `recreate` and a conversation
/// file there, the file goes and a new thread is made; otherwise the thread
/// loaded from the file (if any) is checked and used, else a new thread is
/// made.
pub open spec fn spec_plan_conv(recreate: bool, file_exists: bool, loaded: Option<Seq<char>>) -> ConvPlanView {
    if recreate && file_exists {
        ConvPlanView::RemoveAndCreate
    } else {
        match loaded {
            Some(id) => ConvPlanView::Verify(id),
            None => ConvPlanView::Create,
        }
    }
}

/// Decides how to have the agent's conversation.
pub fn plan_conv(recreate: bool, file_exists: bool, loaded: Option<ThreadId>) -> (r: ConvPlan)
    ensures
        r@ == spec_plan_conv(
            recreate,
            file_exists,
            match loaded {
                Some(id) => Some(id@),
                None => None,
            },
        ),
{
    if recreate && file_exists {
        ConvPlan::RemoveAndCreate
    } else {
        match loaded {
            Some(id) => ConvPlan::Verify(id),
            None => ConvPlan::Create,
        }
    }
}

/// Loading the conversation again reuses its thread: whatever a first load
/// decided, it leaves the conversation file holding a thread `t` (the one it
/// checked or the one it created and saved); a second load without
/// `recreate` finds that file and checks and uses `t`, creating no thread.
pub proof fn lemma_conv_load_again_reuses(first: ConvPlanView, created: Seq<char>)
    ensures
        ({
            let t = match first {
                ConvPlanView::Verify(id) => id,
                _ => created,
            };
            spec_plan_conv(false, true, Some(t)) == ConvPlanView::Verify(t)
        }),
{
}

/// For an agent in a directory `dir` that is not empty and does not end in
/// `/` (absolute or not), its data directory is `dir/.agent`.
pub proof fn lemma_agent_data_dir(dir: Seq<char>)
    requires
        dir.len() > 0,
        dir[dir.len() - 1] != '/',
    ensures
        spec_join(dir, ".agent"@) == dir + "/.agent"@,
{
    reveal_strlit(".agent");
    reveal_strlit("/.agent");
    assert(dir + seq!['/'] + ".agent"@ =~= dir + "/.agent"@);
}

/// Everything an agent keeps of its own lies inside its directory: its data
/// directory starts with the agent's directory, and the data files
/// directory and the conversation file start with the data directory.
pub proof fn lemma_agent_data_inside_dir(dir: Seq<char>)
    ensures
        spec_join(dir, ".agent"@).subrange(0, dir.len() as int) == dir,
        ({
            let data = spec_join(dir, ".agent"@);
            &&& spec_join(data, "files"@).subrange(0, data.len() as int) == data
            &&& spec_join(data, "conv.json"@).subrange(0, data.len() as int) == data
        }),
{
    reveal_strlit(".agent");
    reveal_strlit("files");
    reveal_strlit("conv.json");
    lemma_join_extends(dir, ".agent"@);
    let data = spec_join(dir, ".agent"@);
    lemma_join_extends(data, "files"@);
    lemma_join_extends(data, "conv.json"@);
}

} // verus!
