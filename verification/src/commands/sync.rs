use vstd::prelude::*;
use crate::util::database::structs::Source;
use crate::util::digest::{hex_lower, sha512_of, verify_database};
use crate::util::text::{chars_of, push_char, push_str, replace_all, replace_chars, string_from_chars, strings_view};

verus! {

/// What a synchronization works through: the sources, in configuration
/// order, and the mirrors of the mirror list, tried in order for each source.
#[derive(Debug)]
pub struct SyncPlan {
    pub sources: Vec<Source>,
    pub mirrors: Vec<String>,
}

/// Where a synchronization stands: about to try mirror `mirror` for source
/// `source`, waiting for that mirror's database or, with the database in
/// hand, for its hash; or done.
#[derive(Debug)]
pub enum SyncState {
    Next { source: usize, mirror: usize },
    AwaitDatabase { source: usize, mirror: usize },
    AwaitHash { source: usize, mirror: usize, database: Vec<u8> },
    Finished,
}

/// What the caller reports back: the requested step is done (`Ready`), or
/// the body of the requested download, `None` where the request failed or
/// was not answered with status 200.
#[derive(Debug)]
pub enum SyncEvent {
    Ready,
    Database(Option<Vec<u8>>),
    Hash(Option<String>),
}

/// What the caller is to do next: download a database or a hash from an
/// address; store a verified database for a repository with its hash; report
/// that the hash at an address did not match; go on; or stop.
#[derive(Debug)]
pub enum SyncAction {
    FetchDatabase(String),
    FetchHash(String),
    Store { repo: String, database: Vec<u8>, hash: String },
    Rejected(String),
    Continue,
    Finish,
}

/// The mathematical content of a [`SyncState`].
pub enum StateView {
    Next { source: int, mirror: int },
    AwaitDatabase { source: int, mirror: int },
    AwaitHash { source: int, mirror: int, database: Seq<u8> },
    Finished,
}

/// The mathematical content of a [`SyncEvent`].
pub enum EventView {
    Ready,
    Database(Option<Seq<u8>>),
    Hash(Option<Seq<char>>),
}

/// The mathematical content of a [`SyncAction`].
pub enum ActionView {
    FetchDatabase(Seq<char>),
    FetchHash(Seq<char>),
    Store { repo: Seq<char>, database: Seq<u8>, hash: Seq<char> },
    Rejected(Seq<char>),
    Continue,
    Finish,
}

impl View for SyncState {
    type V = StateView;

    open spec fn view(&self) -> StateView {
        match self {
            SyncState::Next { source, mirror } => StateView::Next { source: *source as int, mirror: *mirror as int },
            SyncState::AwaitDatabase { source, mirror } => StateView::AwaitDatabase { source: *source as int, mirror: *mirror as int },
            SyncState::AwaitHash { source, mirror, database } => StateView::AwaitHash { source: *source as int, mirror: *mirror as int, database: database@ },
            SyncState::Finished => StateView::Finished,
        }
    }
}

impl View for SyncEvent {
    type V = EventView;

    open spec fn view(&self) -> EventView {
        match self {
            SyncEvent::Ready => EventView::Ready,
            SyncEvent::Database(d) => EventView::Database(match d {
                Some(v) => Some(v@),
                None => None,
            }),
            SyncEvent::Hash(h) => EventView::Hash(match h {
                Some(s) => Some(s@),
                None => None,
            }),
        }
    }
}

impl View for SyncAction {
    type V = ActionView;

    open spec fn view(&self) -> ActionView {
        match self {
            SyncAction::FetchDatabase(u) => ActionView::FetchDatabase(u@),
            SyncAction::FetchHash(u) => ActionView::FetchHash(u@),
            SyncAction::Store { repo, database, hash } => ActionView::Store { repo: repo@, database: database@, hash: hash@ },
            SyncAction::Rejected(u) => ActionView::Rejected(u@),
            SyncAction::Continue => ActionView::Continue,
            SyncAction::Finish => ActionView::Finish,
        }
    }
}

/// Where a source's files are: its own address where it has one, else the
/// mirror with `$repo` replaced by the source's name.
pub open spec fn source_base(s: Source, mirror: Seq<char>) -> Seq<char> {
    match s.url {
        Some(u) => u@,
        None => replace_all(mirror, "$repo"@, s.name@),
    }
}

/// The address of a file of a source on a mirror.
pub open spec fn source_file_url(s: Source, mirror: Seq<char>, file: Seq<char>) -> Seq<char> {
    source_base(s, mirror) + seq!['/'] + file
}

/// The address of a file of a source on a mirror.
pub fn source_file(source: &Source, mirror: &str, file: &str) -> (r: String)
    ensures
        r@ == source_file_url(*source, mirror@, file@),
{
    let mut out = match &source.url {
        Some(u) => u.clone(),
        None => {
            let m = chars_of(mirror);
            let pat = chars_of("$repo");
            let rep = chars_of(source.name.as_str());
            proof {
                reveal_strlit("$repo");
            }
            let replaced = replace_chars(&m, &pat, &rep);
            string_from_chars(&replaced)
        },
    };
    push_char(&mut out, '/');
    push_str(&mut out, file);
    out
}

/// Whether a state points inside the plan: a source being tried exists, and
/// so does the mirror being waited on.
pub open spec fn state_valid(n_sources: int, n_mirrors: int, st: StateView) -> bool {
    match st {
        StateView::Next { source, mirror } => 0 <= source <= n_sources && 0 <= mirror <= n_mirrors,
        StateView::AwaitDatabase { source, mirror } => 0 <= source < n_sources && 0 <= mirror < n_mirrors,
        StateView::AwaitHash { source, mirror, .. } => 0 <= source < n_sources && 0 <= mirror < n_mirrors,
        StateView::Finished => true,
    }
}

/// One step of a synchronization. For each source, the mirrors are tried in
/// order: the database is downloaded, then its hash; a failed download moves
/// to the next mirror; a database whose SHA-512 digest, in lower-case
/// hexadecimal, is the hash is stored and ends the source; one whose digest
/// differs is reported and the next mirror tried. After the last source the
/// synchronization finishes.
pub open spec fn sync_next(sources: Seq<Source>, mirrors: Seq<Seq<char>>, st: StateView, ev: EventView) -> (StateView, ActionView) {
    match st {
        StateView::Next { source, mirror } => if source >= sources.len() {
            (StateView::Finished, ActionView::Finish)
        } else if mirror >= mirrors.len() {
            (StateView::Next { source: source + 1, mirror: 0 }, ActionView::Continue)
        } else {
            (
                StateView::AwaitDatabase { source, mirror },
                ActionView::FetchDatabase(source_file_url(sources[source], mirrors[mirror], "database.db"@)),
            )
        },
        StateView::AwaitDatabase { source, mirror } => match ev {
            EventView::Database(Some(db)) => (
                StateView::AwaitHash { source, mirror, database: db },
                ActionView::FetchHash(source_file_url(sources[source], mirrors[mirror], "database.hash"@)),
            ),
            _ => (StateView::Next { source, mirror: mirror + 1 }, ActionView::Continue),
        },
        StateView::AwaitHash { source, mirror, database } => match ev {
            EventView::Hash(Some(h)) => if hex_lower(sha512_of(database)) == h {
                (
                    StateView::Next { source: source + 1, mirror: 0 },
                    ActionView::Store { repo: sources[source].name@, database, hash: h },
                )
            } else {
                (
                    StateView::Next { source, mirror: mirror + 1 },
                    ActionView::Rejected(source_file_url(sources[source], mirrors[mirror], "database.hash"@)),
                )
            },
            _ => (StateView::Next { source, mirror: mirror + 1 }, ActionView::Continue),
        },
        StateView::Finished => (StateView::Finished, ActionView::Finish),
    }
}

/// Where a synchronization starts: the first mirror of the first source.
pub fn sync_start() -> (r: SyncState)
    ensures
        r@ == (StateView::Next { source: 0, mirror: 0 }),
{
    SyncState::Next { source: 0, mirror: 0 }
}

/// Takes one step of a synchronization: from the state and what the caller
/// reports, the next state and what the caller is to do.
pub fn sync_step(plan: &SyncPlan, state: SyncState, event: SyncEvent) -> (r: (SyncState, SyncAction))
    requires
        state_valid(plan.sources@.len() as int, plan.mirrors@.len() as int, state@),
    ensures
        (r.0@, r.1@) == sync_next(plan.sources@, strings_view(plan.mirrors@), state@, event@),
        state_valid(plan.sources@.len() as int, plan.mirrors@.len() as int, r.0@),
{
    proof {
        reveal_strlit("database.db");
        reveal_strlit("database.hash");
    }
    let n_sources = plan.sources.len();
    let n_mirrors = plan.mirrors.len();
    match state {
        SyncState::Next { source, mirror } => {
            if source >= n_sources {
                (SyncState::Finished, SyncAction::Finish)
            } else if mirror >= n_mirrors {
                (SyncState::Next { source: source + 1, mirror: 0 }, SyncAction::Continue)
            } else {
                let url = source_file(&plan.sources[source], plan.mirrors[mirror].as_str(), "database.db");
                (SyncState::AwaitDatabase { source, mirror }, SyncAction::FetchDatabase(url))
            }
        },
        SyncState::AwaitDatabase { source, mirror } => match event {
            SyncEvent::Database(Some(db)) => {
                let url = source_file(&plan.sources[source], plan.mirrors[mirror].as_str(), "database.hash");
                (SyncState::AwaitHash { source, mirror, database: db }, SyncAction::FetchHash(url))
            },
            _ => (SyncState::Next { source, mirror: mirror + 1 }, SyncAction::Continue),
        },
        SyncState::AwaitHash { source, mirror, database } => match event {
            SyncEvent::Hash(Some(h)) => {
                if verify_database(database.as_slice(), h.as_str()) {
                    let repo = plan.sources[source].name.clone();
                    (SyncState::Next { source: source + 1, mirror: 0 }, SyncAction::Store { repo, database, hash: h })
                } else {
                    let url = source_file(&plan.sources[source], plan.mirrors[mirror].as_str(), "database.hash");
                    (SyncState::Next { source, mirror: mirror + 1 }, SyncAction::Rejected(url))
                }
            },
            _ => (SyncState::Next { source, mirror: mirror + 1 }, SyncAction::Continue),
        },
        SyncState::Finished => (SyncState::Finished, SyncAction::Finish),
    }
}

// ---------------------------------------------------------------------------
// Laws of the synchronization
// ---------------------------------------------------------------------------

/// A synchronization never stores a database that does not match its hash:
/// whenever a step says to store, the stored database's lower-case
/// hexadecimal SHA-512 digest is the stored hash, and the repository is the
/// source being synchronized.
pub proof fn law_sync_stores_only_verified(sources: Seq<Source>, mirrors: Seq<Seq<char>>, st: StateView, ev: EventView)
    requires
        state_valid(sources.len() as int, mirrors.len() as int, st),
    ensures
        match sync_next(sources, mirrors, st, ev).1 {
            ActionView::Store { repo, database, hash } => {
                &&& hex_lower(sha512_of(database)) == hash
                &&& st matches StateView::AwaitHash { source, .. } && repo == sources[source].name@
            },
            _ => true,
        },
{
}

/// How far a state is along: sources done, then mirrors tried, then the
/// phase within a mirror.
pub open spec fn progress(st: StateView, n_sources: int) -> (int, int, int) {
    match st {
        StateView::Next { source, mirror } => (source, mirror, 0),
        StateView::AwaitDatabase { source, mirror } => (source, mirror, 1),
        StateView::AwaitHash { source, mirror, .. } => (source, mirror, 2),
        StateView::Finished => (n_sources + 1, 0, 0),
    }
}

/// Whether `a` comes strictly before `b` in lexicographic order.
pub open spec fn lex_before(a: (int, int, int), b: (int, int, int)) -> bool {
    a.0 < b.0 || (a.0 == b.0 && (a.1 < b.1 || (a.1 == b.1 && a.2 < b.2)))
}

/// A synchronization always makes progress: until it has finished, every
/// step moves it strictly forward, through at most as many sources and
/// mirrors as the plan holds, so it finishes.
pub proof fn law_sync_progress(sources: Seq<Source>, mirrors: Seq<Seq<char>>, st: StateView, ev: EventView)
    requires
        state_valid(sources.len() as int, mirrors.len() as int, st),
        !(st is Finished),
    ensures
        lex_before(
            progress(st, sources.len() as int),
            progress(sync_next(sources, mirrors, st, ev).0, sources.len() as int),
        ),
        state_valid(sources.len() as int, mirrors.len() as int, sync_next(sources, mirrors, st, ev).0),
{
}

/// The hash of a source is fetched from where its database was: from a
/// state about to try mirror `m` of source `s`, the database is fetched
/// from an address `base/database.db`, and once it has come, its hash from
/// `base/database.hash` with the same `base`, for every mirror tried.
pub proof fn law_sync_hash_from_same_mirror(
    sources: Seq<Source>,
    mirrors: Seq<Seq<char>>,
    s: int,
    m: int,
    ev: EventView,
    db: Seq<u8>,
)
    requires
        0 <= s < sources.len(),
        0 <= m < mirrors.len(),
    ensures
        ({
            let first = sync_next(sources, mirrors, StateView::Next { source: s, mirror: m }, ev);
            let second = sync_next(sources, mirrors, first.0, EventView::Database(Some(db)));
            &&& first.0 == (StateView::AwaitDatabase { source: s, mirror: m })
            &&& second.0 == (StateView::AwaitHash { source: s, mirror: m, database: db })
            &&& exists|base: Seq<char>|
                #![trigger base + seq!['/'] + "database.db"@]
                first.1 == ActionView::FetchDatabase(base + seq!['/'] + "database.db"@)
                && second.1 == ActionView::FetchHash(base + seq!['/'] + "database.hash"@)
                && base == source_base(sources[s], mirrors[m])
        }),
{
    let base = source_base(sources[s], mirrors[m]);
    assert(source_file_url(sources[s], mirrors[m], "database.db"@) == base + seq!['/'] + "database.db"@);
}

} // verus!
