use vstd::prelude::*;
use vstd::string::*;
use crate::error::{AgentError, gives};
use crate::ais::msg::{ThreadMsg, get_text_content, spec_text_content};

verus! {

// region:    --- Types

/// What an assistant is created with.
pub struct CreateConfig {
    pub name: String,
    pub model: String,
}

/// The identifier of an assistant.
pub struct AsstId(String);

/// The identifier of a conversation thread.
pub struct ThreadId(String);

/// The identifier of an uploaded file.
pub struct FileId(String);

impl View for AsstId {
    type V = Seq<char>;

    closed spec fn view(&self) -> Seq<char> {
        self.0@
    }
}

impl View for ThreadId {
    type V = Seq<char>;

    closed spec fn view(&self) -> Seq<char> {
        self.0@
    }
}

impl View for FileId {
    type V = Seq<char>;

    closed spec fn view(&self) -> Seq<char> {
        self.0@
    }
}

impl From<String> for AsstId {
    fn from(s: String) -> (r: AsstId)
        ensures
            r@ == s@,
    {
        AsstId(s)
    }
}

impl vstd::std_specs::convert::FromSpecImpl<String> for AsstId {
    open spec fn obeys_from_spec() -> bool {
        true
    }

    closed spec fn from_spec(v: String) -> AsstId {
        AsstId(v)
    }
}

impl From<String> for ThreadId {
    fn from(s: String) -> (r: ThreadId)
        ensures
            r@ == s@,
    {
        ThreadId(s)
    }
}

impl vstd::std_specs::convert::FromSpecImpl<String> for ThreadId {
    open spec fn obeys_from_spec() -> bool {
        true
    }

    closed spec fn from_spec(v: String) -> ThreadId {
        ThreadId(v)
    }
}

impl From<String> for FileId {
    fn from(s: String) -> (r: FileId)
        ensures
            r@ == s@,
    {
        FileId(s)
    }
}

impl vstd::std_specs::convert::FromSpecImpl<String> for FileId {
    open spec fn obeys_from_spec() -> bool {
        true
    }

    closed spec fn from_spec(v: String) -> FileId {
        FileId(v)
    }
}

impl AsstId {
    /// The identifier as text.
    pub fn as_str(&self) -> (r: &str)
        ensures
            r@ == self@,
    {
        self.0.as_str()
    }
}

impl ThreadId {
    /// The identifier as text.
    pub fn as_str(&self) -> (r: &str)
        ensures
            r@ == self@,
    {
        self.0.as_str()
    }
}

impl FileId {
    /// The identifier as text.
    pub fn as_str(&self) -> (r: &str)
        ensures
            r@ == self@,
    {
        self.0.as_str()
    }
}

// endregion: --- Types

// region:    --- Asst CRUD

/// What the library reads of an assistant listed by the service.
pub struct AsstInfo {
    pub id: String,
    pub name: Option<String>,
}

/// The assistant is named `name`.
pub open spec fn has_name(a: AsstInfo, name: Seq<char>) -> bool {
    a.name matches Some(n) && n@ == name
}

/// An assistant is found by a name only when its name is that name exactly:
/// not a longer name that starts with it, nor a shorter one, nor a missing
/// one.
pub proof fn lemma_has_name_is_exact(a: AsstInfo, name: Seq<char>)
    ensures
        has_name(a, name) <==> (a.name is Some && a.name->0@ == name),
        has_name(a, name) ==> a.name->0@.len() == name.len(),
{
}

/// The position of the first listed assistant named `name`, if any.
pub fn first_by_name(assts: &Vec<AsstInfo>, name: &str) -> (r: Option<usize>)
    ensures
        match r {
            Some(i) => {
                &&& i < assts@.len()
                &&& has_name(assts@[i as int], name@)
                &&& forall|j: int| 0 <= j < i ==> !has_name(#[trigger] assts@[j], name@)
            },
            None => forall|j: int| 0 <= j < assts@.len() ==> !has_name(#[trigger] assts@[j], name@),
        },
{
    let wanted = name.to_owned();
    let mut i: usize = 0;
    while i < assts.len()
        invariant
            i <= assts@.len(),
            wanted@ == name@,
            forall|j: int| 0 <= j < i ==> !has_name(#[trigger] assts@[j], name@),
        decreases assts@.len() - i,
    {
        let a = &assts[i];
        match &a.name {
            Some(n) => {
                let same: bool = n.eq(&wanted);
                if same {
                    assert(a.name == Some(*n));
                    return Some(i);
                }
            },
            None => {},
        }
        i = i + 1;
    }
    None
}

/// What to do to have an assistant of the configured name.
pub enum AsstPlan {
    /// Use the assistant that exists.
    Reuse(AsstId),
    /// Delete the assistant that exists (with its files), then create a new one.
    DeleteAndCreate(AsstId),
    /// Create a new assistant.
    Create,
}

/// Decides, from the listed assistants, how to get an assistant named
/// `name`: the first one of that name is reused, or deleted first when
/// `recreate` is set; with none of that name a new one is created.
pub fn plan_load_or_create(assts: &Vec<AsstInfo>, name: &str, recreate: bool) -> (r: AsstPlan)
    ensures
        (forall|j: int| 0 <= j < assts@.len() ==> !has_name(#[trigger] assts@[j], name@))
            <==> r is Create,
        r matches AsstPlan::Reuse(id) ==> !recreate,
        r matches AsstPlan::DeleteAndCreate(id) ==> recreate,
        match r {
            AsstPlan::Reuse(id) | AsstPlan::DeleteAndCreate(id) => exists|i: int|
                0 <= i < assts@.len() && has_name(#[trigger] assts@[i], name@) && id@ == assts@[i].id@
                    && forall|j: int| 0 <= j < i ==> !has_name(#[trigger] assts@[j], name@),
            AsstPlan::Create => true,
        },
{
    match first_by_name(assts, name) {
        Some(i) => {
            let id = AsstId::from(assts[i].id.clone());
            if recreate {
                AsstPlan::DeleteAndCreate(id)
            } else {
                AsstPlan::Reuse(id)
            }
        },
        None => AsstPlan::Create,
    }
}

// endregion: --- Asst CRUD

// region:    --- Thread

/// The state of a run of an assistant on a thread.
pub enum RunStatus {
    Queued,
    InProgress,
    RequiresAction,
    Cancelling,
    Cancelled,
    Failed,
    Completed,
    Expired,
}

/// The name of a run status, as it is shown to the user.
pub open spec fn spec_status_name(s: RunStatus) -> Seq<char> {
    match s {
        RunStatus::Queued => "Queued"@,
        RunStatus::InProgress => "InProgress"@,
        RunStatus::RequiresAction => "RequiresAction"@,
        RunStatus::Cancelling => "Cancelling"@,
        RunStatus::Cancelled => "Cancelled"@,
        RunStatus::Failed => "Failed"@,
        RunStatus::Completed => "Completed"@,
        RunStatus::Expired => "Expired"@,
    }
}

/// The name of a run status, as it is shown to the user.
pub fn status_name(s: &RunStatus) -> (r: &'static str)
    ensures
        r@ == spec_status_name(*s),
{
    match s {
        RunStatus::Queued => "Queued",
        RunStatus::InProgress => "InProgress",
        RunStatus::RequiresAction => "RequiresAction",
        RunStatus::Cancelling => "Cancelling",
        RunStatus::Cancelled => "Cancelled",
        RunStatus::Failed => "Failed",
        RunStatus::Completed => "Completed",
        RunStatus::Expired => "Expired",
    }
}

/// What to do after reading the status of a run.
pub enum RunStep {
    /// The run is not over: wait, then read its status again.
    Wait,
    /// The run completed: the answer is the first message of the thread.
    ReadReply,
    /// The run failed: this text is the answer.
    Reply(String),
    /// The run ended otherwise: fail with this message.
    Fail(AgentError),
}

/// The step that a run of status `status` calls for, where `last_error` is
/// the message of the run's last error, if it has one.
pub fn run_step(status: RunStatus, last_error: Option<String>) -> (r: RunStep)
    ensures
        r is Wait <==> (status is Queued || status is InProgress),
        r is ReadReply <==> status is Completed,
        status is Failed ==> match last_error {
            Some(m) => r matches RunStep::Reply(t) && t@ == m@,
            None => r matches RunStep::Reply(t) && t@ == "No error specified"@,
        },
        r matches RunStep::Fail(e) ==> crate::error::is_message(
            e,
            "ERROR WHILE RUN: "@ + spec_status_name(status),
        ),
        !(status is Queued || status is InProgress || status is Completed || status is Failed)
            ==> r is Fail,
{
    match status {
        RunStatus::Completed => RunStep::ReadReply,
        RunStatus::Queued | RunStatus::InProgress => RunStep::Wait,
        RunStatus::Failed => match last_error {
            Some(m) => RunStep::Reply(m),
            None => RunStep::Reply("No error specified".to_owned()),
        },
        other => {
            let mut msg = "ERROR WHILE RUN: ".to_owned();
            msg.append(status_name(&other));
            RunStep::Fail(AgentError::Message(msg))
        },
    }
}

/// The answer in a thread: the text of its first message (the latest).
pub fn get_first_thread_msg_content(messages: Vec<ThreadMsg>) -> (r: Result<String, AgentError>)
    ensures
        messages@.len() == 0 ==> gives(r, Err("No message found"@)),
        messages@.len() > 0 ==> gives(r, spec_text_content(messages@[0])),
{
    let mut messages = messages;
    if messages.len() == 0 {
        return Err(AgentError::Message("No message found".to_owned()));
    }
    let msg = messages.remove(0);
    get_text_content(msg)
}

// endregion: --- Thread

// region:    --- Files

/// What the library reads of a file of the organization, as listed by the
/// service.
pub struct OrgFile {
    pub id: String,
    pub filename: String,
}

/// The map built from `(name, id)` entries taken in order, a later entry of a
/// name replacing an earlier one.
pub open spec fn map_of(entries: Seq<(Seq<char>, Seq<char>)>) -> Map<Seq<char>, Seq<char>>
    decreases entries.len(),
{
    if entries.len() == 0 {
        Map::empty()
    } else {
        map_of(entries.drop_last()).insert(entries.last().0, entries.last().1)
    }
}

/// No name occurs twice among the entries.
pub open spec fn names_unique(entries: Seq<(Seq<char>, Seq<char>)>) -> bool {
    forall|i: int, j: int|
        0 <= i < entries.len() && 0 <= j < entries.len() && i != j ==> #[trigger] entries[i].0
            != #[trigger] entries[j].0
}

/// The ids of uploaded files by file name: the map that the service's
/// listings give, a view of type `Map<file name, file id>`.
pub struct FileIndex {
    entries: Vec<(String, FileId)>,
}

impl FileIndex {
    /// The entries as plain values, in the order they are held.
    pub closed spec fn entries_view(&self) -> Seq<(Seq<char>, Seq<char>)> {
        self.entries@.map_values(|e: (String, FileId)| (e.0@, e.1@))
    }

    #[verifier::type_invariant]
    closed spec fn inv(&self) -> bool {
        names_unique(self.entries_view())
    }
}

impl View for FileIndex {
    type V = Map<Seq<char>, Seq<char>>;

    closed spec fn view(&self) -> Map<Seq<char>, Seq<char>> {
        map_of(self.entries_view())
    }
}

/// What `map_of` holds: its keys are the entries' names, it is finite, and
/// where names are unique each name maps to the id of its entry.
proof fn lemma_map_of(entries: Seq<(Seq<char>, Seq<char>)>)
    ensures
        map_of(entries).dom().finite(),
        forall|k: Seq<char>|
            map_of(entries).contains_key(k) <==> exists|i: int|
                0 <= i < entries.len() && #[trigger] entries[i].0 == k,
        names_unique(entries) ==> forall|i: int|
            0 <= i < entries.len() ==> map_of(entries)[#[trigger] entries[i].0] == entries[i].1,
    decreases entries.len(),
{
    if entries.len() > 0 {
        let rest = entries.drop_last();
        lemma_map_of(rest);
        assert forall|k: Seq<char>|
            map_of(entries).contains_key(k) <==> exists|i: int|
                0 <= i < entries.len() && #[trigger] entries[i].0 == k by {
            if map_of(entries).contains_key(k) && k != entries.last().0 {
                let i = choose|i: int| 0 <= i < rest.len() && #[trigger] rest[i].0 == k;
                assert(entries[i].0 == k);
            }
            if exists|i: int| 0 <= i < entries.len() && #[trigger] entries[i].0 == k {
                let i = choose|i: int| 0 <= i < entries.len() && #[trigger] entries[i].0 == k;
                if i < rest.len() {
                    assert(rest[i].0 == k);
                }
            }
        }
        if names_unique(entries) {
            assert(names_unique(rest)) by {
                assert forall|i: int, j: int|
                    0 <= i < rest.len() && 0 <= j < rest.len() && i != j implies #[trigger] rest[i].0
                    != #[trigger] rest[j].0 by {
                    assert(rest[i] == entries[i] && rest[j] == entries[j]);
                }
            }
            assert forall|i: int| 0 <= i < entries.len() implies map_of(entries)[
                #[trigger] entries[i].0] == entries[i].1 by {
                if i < rest.len() {
                    assert(rest[i] == entries[i]);
                    assert(entries[i].0 != entries[entries.len() - 1].0);
                }
            }
        }
    }
}

impl FileIndex {
    /// An index with no file.
    pub fn new() -> (r: FileIndex)
        ensures
            r@ == Map::<Seq<char>, Seq<char>>::empty(),
    {
        let r = FileIndex { entries: Vec::new() };
        assert(r.entries_view() =~= Seq::<(Seq<char>, Seq<char>)>::empty());
        r
    }

    /// The position of the entry named `name`, if there is one.
    fn position(&self, name: &String) -> (r: Option<usize>)
        ensures
            match r {
                Some(i) => i < self.entries_view().len() && self.entries_view()[i as int].0 == name@,
                None => forall|i: int|
                    0 <= i < self.entries_view().len() ==> #[trigger] self.entries_view()[i].0
                        != name@,
            },
    {
        let mut i: usize = 0;
        while i < self.entries.len()
            invariant
                i <= self.entries@.len(),
                self.entries_view().len() == self.entries@.len(),
                forall|j: int| 0 <= j < i ==> #[trigger] self.entries_view()[j].0 != name@,
            decreases self.entries@.len() - i,
        {
            let same: bool = self.entries[i].0.eq(name);
            if same {
                return Some(i);
            }
            i = i + 1;
        }
        None
    }

    /// Records `id` as the file named `name`, replacing the id it had.
    pub fn insert(&mut self, name: String, id: FileId)
        ensures
            final(self)@ == old(self)@.insert(name@, id@),
    {
        proof {
            use_type_invariant(&*self);
        }
        let ghost old_es = self.entries_view();
        let pos = self.position(&name);
        let mut entries: Vec<(String, FileId)> = Vec::new();
        std::mem::swap(&mut entries, &mut self.entries);
        let ghost k = name@;
        let ghost v = id@;
        match pos {
            Some(i) => {
                entries.set(i, (name, id));
                let ghost new_es = entries@.map_values(|e: (String, FileId)| (e.0@, e.1@));
                assert(new_es =~= old_es.update(i as int, (k, v)));
                proof {
                    assert(names_unique(new_es)) by {
                        assert forall|a: int, b: int|
                            0 <= a < new_es.len() && 0 <= b < new_es.len() && a != b implies #[trigger] new_es[a].0
                            != #[trigger] new_es[b].0 by {
                            assert(old_es[a].0 == new_es[a].0);
                            assert(old_es[b].0 == new_es[b].0);
                        }
                    }
                    lemma_map_of(old_es);
                    lemma_map_of(new_es);
                    assert(map_of(new_es) =~= map_of(old_es).insert(k, v)) by {
                        assert forall|key: Seq<char>| #[trigger] map_of(new_es).contains_key(key) implies
                            map_of(new_es)[key] == map_of(old_es).insert(k, v)[key] by {
                            let j = choose|j: int| 0 <= j < new_es.len() && #[trigger] new_es[j].0 == key;
                            assert(old_es[j].0 == key);
                        }
                        assert forall|key: Seq<char>| #[trigger] map_of(old_es).insert(k, v).contains_key(key) implies
                            map_of(new_es).contains_key(key) by {
                            if key != k {
                                let j = choose|j: int| 0 <= j < old_es.len() && #[trigger] old_es[j].0 == key;
                                assert(new_es[j].0 == key);
                            } else {
                                assert(new_es[i as int].0 == key);
                            }
                        }
                    }
                }
            },
            None => {
                entries.push((name, id));
                let ghost new_es = entries@.map_values(|e: (String, FileId)| (e.0@, e.1@));
                assert(new_es =~= old_es.push((k, v)));
                assert(new_es.drop_last() =~= old_es);
                assert(names_unique(new_es)) by {
                    assert forall|a: int, b: int|
                        0 <= a < new_es.len() && 0 <= b < new_es.len() && a != b implies #[trigger] new_es[a].0
                        != #[trigger] new_es[b].0 by {
                        if a < old_es.len() {
                            assert(old_es[a].0 == new_es[a].0);
                        }
                        if b < old_es.len() {
                            assert(old_es[b].0 == new_es[b].0);
                        }
                    }
                }
            },
        }
        self.entries = entries;
    }

    /// Takes out the file named `name`, giving back its id if it was there.
    pub fn remove(&mut self, name: &str) -> (r: Option<FileId>)
        ensures
            final(self)@ == old(self)@.remove(name@),
            match r {
                Some(id) => old(self)@.contains_key(name@) && id@ == old(self)@[name@],
                None => !old(self)@.contains_key(name@),
            },
    {
        proof {
            use_type_invariant(&*self);
        }
        let ghost old_es = self.entries_view();
        proof {
            lemma_map_of(old_es);
        }
        let name = name.to_owned();
        let pos = self.position(&name);
        match pos {
            Some(i) => {
                let mut entries: Vec<(String, FileId)> = Vec::new();
                std::mem::swap(&mut entries, &mut self.entries);
                let (_, id) = entries.remove(i);
                let ghost new_es = entries@.map_values(|e: (String, FileId)| (e.0@, e.1@));
                assert(new_es =~= old_es.remove(i as int));
                proof {
                    assert(names_unique(new_es)) by {
                        assert forall|a: int, b: int|
                            0 <= a < new_es.len() && 0 <= b < new_es.len() && a != b implies #[trigger] new_es[a].0
                            != #[trigger] new_es[b].0 by {
                            let a0 = if a < i { a } else { a + 1 };
                            let b0 = if b < i { b } else { b + 1 };
                            assert(new_es[a] == old_es[a0]);
                            assert(new_es[b] == old_es[b0]);
                        }
                    }
                    lemma_map_of(new_es);
                    assert(map_of(new_es) =~= map_of(old_es).remove(name@)) by {
                        assert forall|key: Seq<char>| #[trigger] map_of(new_es).contains_key(key) implies
                            map_of(old_es).remove(name@).contains_key(key)
                            && map_of(new_es)[key] == map_of(old_es)[key] by {
                            let j = choose|j: int| 0 <= j < new_es.len() && #[trigger] new_es[j].0 == key;
                            let j0 = if j < i { j } else { j + 1 };
                            assert(new_es[j] == old_es[j0]);
                            assert(j0 != i);
                        }
                        assert forall|key: Seq<char>| #[trigger] map_of(old_es).remove(name@).contains_key(key) implies
                            map_of(new_es).contains_key(key) by {
                            let j = choose|j: int| 0 <= j < old_es.len() && #[trigger] old_es[j].0 == key;
                            assert(j != i);
                            let j1 = if j < i { j } else { j - 1 };
                            assert(new_es[j1] == old_es[j]);
                        }
                    }
                }
                self.entries = entries;
                Some(id)
            },
            None => {
                proof {
                    assert(!map_of(old_es).contains_key(name@)) by {
                        if map_of(old_es).contains_key(name@) {
                            let j = choose|j: int| 0 <= j < old_es.len() && #[trigger] old_es[j].0 == name@;
                        }
                    }
                    assert(map_of(old_es).remove(name@) =~= map_of(old_es));
                }
                None
            },
        }
    }

    /// The ids of all the files, one for each name, in no particular order.
    pub fn into_values(self) -> (r: Vec<FileId>)
        ensures
            exists|names: Seq<Seq<char>>|
                {
                    &&& names.len() == r@.len()
                    &&& names.no_duplicates()
                    &&& names.to_set() == self@.dom()
                    &&& forall|i: int| 0 <= i < r@.len() ==> #[trigger] r@[i]@ == self@[names[i]]
                },
    {
        proof {
            use_type_invariant(&self);
        }
        let ghost es = self.entries_view();
        let mut r: Vec<FileId> = Vec::new();
        let FileIndex { entries } = self;
        let mut entries = entries;
        let ghost all = entries@;
        let mut i: usize = 0;
        let n = entries.len();
        while i < n
            invariant
                n == all.len(),
                i <= n,
                entries@ == all.subrange(i as int, n as int),
                r@.len() == i,
                forall|j: int| 0 <= j < i ==> #[trigger] r@[j] == all[j].1,
            decreases n - i,
        {
            let (_, id) = entries.remove(0);
            r.push(id);
            i = i + 1;
        }
        proof {
            lemma_map_of(es);
            let names = es.map_values(|e: (Seq<char>, Seq<char>)| e.0);
            assert(names.no_duplicates());
            assert(names.to_set() =~= map_of(es).dom()) by {
                assert forall|k: Seq<char>| names.to_set().contains(k) implies map_of(es).dom().contains(k) by {
                    let j = choose|j: int| 0 <= j < names.len() && names[j] == k;
                    assert(es[j].0 == k);
                }
                assert forall|k: Seq<char>| map_of(es).dom().contains(k) implies names.to_set().contains(k) by {
                    let j = choose|j: int| 0 <= j < es.len() && #[trigger] es[j].0 == k;
                    assert(names[j] == k);
                }
            }
            assert forall|j: int| 0 <= j < r@.len() implies #[trigger] r@[j]@ == map_of(es)[names[j]] by {
                assert(es[j].0 == names[j]);
            }
        }
        r
    }
}

/// The ids that the text views of `ids` make up.
pub open spec fn id_set(ids: Seq<String>) -> Set<Seq<char>> {
    Set::new(|v: Seq<char>| exists|j: int| 0 <= j < ids.len() && #[trigger] ids[j]@ == v)
}

/// The file ids by file name for the files of the organization that are
/// attached to the assistant (whose id is in `attached`), the files taken in
/// the order listed, a later file of a name replacing an earlier one.
pub open spec fn spec_files_by_name(attached: Set<Seq<char>>, org: Seq<OrgFile>) -> Map<
    Seq<char>,
    Seq<char>,
>
    decreases org.len(),
{
    if org.len() == 0 {
        Map::empty()
    } else {
        let m = spec_files_by_name(attached, org.drop_last());
        let f = org.last();
        if attached.contains(f.id@) {
            m.insert(f.filename@, f.id@)
        } else {
            m
        }
    }
}

/// `id` is among `ids`.
fn contains_id(ids: &Vec<String>, id: &String) -> (r: bool)
    ensures
        r == id_set(ids@).contains(id@),
{
    let mut i: usize = 0;
    while i < ids.len()
        invariant
            i <= ids@.len(),
            forall|j: int| 0 <= j < i ==> #[trigger] ids@[j]@ != id@,
        decreases ids@.len() - i,
    {
        let same: bool = ids[i].eq(id);
        if same {
            return true;
        }
        i = i + 1;
    }
    false
}

/// The file id by file name, for the organization's files `org_files` that
/// are attached to the assistant, whose attached file ids are
/// `asst_file_ids`.
pub fn get_files_hashmap(asst_file_ids: &Vec<String>, org_files: &Vec<OrgFile>) -> (r: FileIndex)
    ensures
        r@ == spec_files_by_name(id_set(asst_file_ids@), org_files@),
{
    let mut r = FileIndex::new();
    let mut i: usize = 0;
    while i < org_files.len()
        invariant
            i <= org_files@.len(),
            r@ == spec_files_by_name(id_set(asst_file_ids@), org_files@.take(i as int)),
        decreases org_files@.len() - i,
    {
        let f = &org_files[i];
        assert(org_files@.take(i + 1).drop_last() =~= org_files@.take(i as int));
        assert(org_files@.take(i + 1).last() == *f);
        if contains_id(asst_file_ids, &f.id) {
            r.insert(f.filename.clone(), FileId::from(f.id.clone()));
        }
        i = i + 1;
    }
    assert(org_files@.take(org_files@.len() as int) =~= org_files@);
    r
}

/// Each file of the map is one of the organization's files and is attached
/// to the assistant; each attached file's name is in the map.
pub proof fn lemma_files_by_name_attached(attached: Set<Seq<char>>, org: Seq<OrgFile>)
    ensures
        forall|k: Seq<char>|
            #[trigger] spec_files_by_name(attached, org).contains_key(k) ==> {
                &&& attached.contains(spec_files_by_name(attached, org)[k])
                &&& exists|i: int|
                    0 <= i < org.len() && #[trigger] org[i].filename@ == k && org[i].id@
                        == spec_files_by_name(attached, org)[k]
            },
        forall|i: int|
            0 <= i < org.len() && attached.contains(#[trigger] org[i].id@)
                ==> spec_files_by_name(attached, org).contains_key(org[i].filename@),
    decreases org.len(),
{
    if org.len() > 0 {
        let rest = org.drop_last();
        lemma_files_by_name_attached(attached, rest);
        let m = spec_files_by_name(attached, org);
        assert forall|k: Seq<char>| #[trigger] m.contains_key(k) implies {
            &&& attached.contains(m[k])
            &&& exists|i: int| 0 <= i < org.len() && #[trigger] org[i].filename@ == k && org[i].id@ == m[k]
        } by {
            if attached.contains(org.last().id@) && k == org.last().filename@ {
                assert(org[org.len() - 1].filename@ == k);
            } else {
                let i = choose|i: int|
                    0 <= i < rest.len() && #[trigger] rest[i].filename@ == k && rest[i].id@
                        == spec_files_by_name(attached, rest)[k];
                assert(org[i] == rest[i]);
            }
        }
        assert forall|i: int|
            0 <= i < org.len() && attached.contains(#[trigger] org[i].id@) implies m.contains_key(
            org[i].filename@) by {
            if i < rest.len() {
                assert(org[i] == rest[i]);
            }
        }
    }
}

/// What an index holds after a file is recorded and then taken out: the
/// removal gives back the id recorded, and the index is as it was without
/// that name, whatever it held before.
pub proof fn lemma_remove_after_insert(before: Map<Seq<char>, Seq<char>>, name: Seq<char>, id: Seq<char>)
    ensures
        before.insert(name, id).contains_key(name),
        before.insert(name, id)[name] == id,
        before.insert(name, id).remove(name) == before.remove(name),
{
    assert(before.insert(name, id).remove(name) =~= before.remove(name));
}

/// What to do to have a file uploaded to an assistant.
pub enum UploadPlan {
    /// The file is there already: give back its id, upload nothing.
    Keep(FileId),
    /// Delete the file of that name (from the account and from the
    /// assistant), then upload it.
    Replace(FileId),
    /// Upload the file.
    Upload,
}

/// The mathematical value of an [`UploadPlan`].
pub enum UploadPlanView {
    Keep(Seq<char>),
    Replace(Seq<char>),
    Upload,
}

impl View for UploadPlan {
    type V = UploadPlanView;

    open spec fn view(&self) -> UploadPlanView {
        match self {
            UploadPlan::Keep(id) => UploadPlanView::Keep(id@),
            UploadPlan::Replace(id) => UploadPlanView::Replace(id@),
            UploadPlan::Upload => UploadPlanView::Upload,
        }
    }
}

/// How to upload the file named `name`, given the assistant's files by name:
/// a file not there is uploaded; without `force` one there is kept; with
/// `force` it is deleted and uploaded again.
pub open spec fn spec_plan_upload(files: Map<Seq<char>, Seq<char>>, name: Seq<char>, force: bool) -> UploadPlanView {
    if !files.contains_key(name) {
        UploadPlanView::Upload
    } else if force {
        UploadPlanView::Replace(files[name])
    } else {
        UploadPlanView::Keep(files[name])
    }
}

/// Decides how to upload the file named `file_name`, given the assistant's
/// files: without `force`, a file already there is kept; with `force`, it is
/// deleted and uploaded again; a file not there is uploaded.
pub fn plan_upload(files: FileIndex, file_name: &str, force: bool) -> (r: UploadPlan)
    ensures
        r@ == spec_plan_upload(files@, file_name@, force),
{
    let mut files = files;
    let file_id = files.remove(file_name);
    if !force {
        if let Some(file_id) = file_id {
            return UploadPlan::Keep(file_id);
        }
    }
    match file_id {
        Some(file_id) => UploadPlan::Replace(file_id),
        None => UploadPlan::Upload,
    }
}

/// Uploading a file again, without `force`, uploads nothing: once the file
/// `id` named `name` is attached to the assistant, and no other attached file
/// of the organization bears that name, the files by name that the listings
/// give map `name` to `id`, and the plan keeps `id`.
pub proof fn lemma_upload_again_keeps(attached: Set<Seq<char>>, org: Seq<OrgFile>, name: Seq<char>, id: Seq<char>)
    requires
        attached.contains(id),
        exists|i: int| 0 <= i < org.len() && #[trigger] org[i].id@ == id && org[i].filename@ == name,
        forall|j: int|
            0 <= j < org.len() && #[trigger] org[j].filename@ == name && attached.contains(org[j].id@)
                ==> org[j].id@ == id,
    ensures
        spec_files_by_name(attached, org).contains_key(name),
        spec_files_by_name(attached, org)[name] == id,
        spec_plan_upload(spec_files_by_name(attached, org), name, false) == UploadPlanView::Keep(id),
{
    lemma_files_by_name_attached(attached, org);
    let i = choose|i: int| 0 <= i < org.len() && #[trigger] org[i].id@ == id && org[i].filename@ == name;
    assert(attached.contains(org[i].id@));
    let m = spec_files_by_name(attached, org);
    assert(m.contains_key(org[i].filename@));
    let k = choose|k: int|
        0 <= k < org.len() && #[trigger] org[k].filename@ == name && org[k].id@ == m[name];
}

// endregion: --- Files

} // verus!
