use vstd::prelude::*;
use crate::util::config::structs::{Config, ConfigEntries, ConfigError, RepoEntries, RepoNode};
use crate::util::database::structs::Source;
use crate::util::lists::{lemma_select_step, select};
use crate::util::text::{bool_text, bool_to_string, str_equal};

verus! {

/// The first repository of the config named `name`.
pub open spec fn find_repo(repos: Seq<RepoNode>, name: Seq<char>) -> Option<RepoNode>
    decreases repos.len(),
{
    if repos.len() == 0 {
        None
    } else if repos[0].name@ == name {
        Some(repos[0])
    } else {
        find_repo(repos.drop_first(), name)
    }
}

/// The text of one entry of a repository's config; a missing address reads
/// as the empty string.
pub open spec fn repo_entry_text(r: RepoNode, e: RepoEntries) -> Seq<char> {
    match e {
        RepoEntries::Name => r.name@,
        RepoEntries::Active => bool_text(r.active),
        RepoEntries::Url => match r.url {
            Some(u) => u@,
            None => Seq::<char>::empty(),
        },
    }
}

/// The text of a config entry, or `None` where it is not found: a repository
/// entry needs both a repository name and a repository entry, and a
/// repository of that name.
pub open spec fn config_entry(c: Config, entry: ConfigEntries, repo: Option<String>, repo_entry: Option<RepoEntries>) -> Option<Seq<char>> {
    match entry {
        ConfigEntries::Architecture => Some(c.architecture@),
        ConfigEntries::Toolchain => Some(c.toolchain@),
        ConfigEntries::Colour => Some(bool_text(c.colour)),
        ConfigEntries::Progressbar => Some(bool_text(c.progressbar)),
        ConfigEntries::Repos => match (repo, repo_entry) {
            (Some(name), Some(e)) => match find_repo(c.repos@, name@) {
                Some(r) => Some(repo_entry_text(r, e)),
                None => None,
            },
            _ => None,
        },
    }
}

/// Returns a string of the requested config entry, optionally returns a
/// config entry within a repo.
///
/// See [ConfigEntries] and [RepoEntries].
#[verifier::loop_isolation(false)]
pub fn get_config_entry(config: &Config, entry: ConfigEntries, repo: Option<String>, repo_entry: Option<RepoEntries>) -> (r: Result<String, ConfigError>)
    ensures
        match config_entry(*config, entry, repo, repo_entry) {
            Some(t) => r matches Ok(s) && s@ == t,
            None => r is Err,
        },
{
    match entry {
        ConfigEntries::Architecture => Ok(config.architecture.clone()),
        ConfigEntries::Toolchain => Ok(config.toolchain.clone()),
        ConfigEntries::Colour => Ok(bool_to_string(config.colour)),
        ConfigEntries::Progressbar => Ok(bool_to_string(config.progressbar)),
        ConfigEntries::Repos => {
            match (&repo, &repo_entry) {
                (Some(name), Some(e)) => {
                    let ghost repos = config.repos@;
                    let mut i: usize = 0;
                    assert(repos.skip(0) =~= repos);
                    while i < config.repos.len()
                        invariant
                            repos == config.repos@,
                            i <= repos.len(),
                            find_repo(repos, name@) == find_repo(repos.skip(i as int), name@),
                        decreases config.repos.len() - i,
                    {
                        assert(repos.skip(i as int)[0] == repos[i as int]);
                        assert(repos.skip(i as int).drop_first() =~= repos.skip(i + 1));
                        let node = &config.repos[i];
                        if str_equal(node.name.as_str(), name.as_str()) {
                            return match e {
                                RepoEntries::Name => Ok(node.name.clone()),
                                RepoEntries::Active => Ok(bool_to_string(node.active)),
                                RepoEntries::Url => match &node.url {
                                    Some(u) => Ok(u.clone()),
                                    None => Ok(String::new()),
                                },
                            };
                        }
                        i = i + 1;
                    }
                    Err(ConfigError)
                },
                _ => Err(ConfigError),
            }
        },
    }
}

/// The source that an active repository of the config stands for.
pub open spec fn source_of(r: RepoNode) -> Source {
    Source { name: r.name, url: r.url }
}

/// The sources of the config: its active repositories, in order.
pub open spec fn active_sources(repos: Seq<RepoNode>) -> Seq<Source> {
    select(repos, |r: RepoNode| r.active).map_values(|r: RepoNode| source_of(r))
}

/// Return sources in config: the active repositories, in config order.
///
/// See [Source].
pub fn get_sources(repos: &Vec<RepoNode>) -> (r: Vec<Source>)
    ensures
        r@ == active_sources(repos@),
{
    let ghost pred = |r: RepoNode| r.active;
    let mut sources: Vec<Source> = Vec::new();
    let mut i: usize = 0;
    assert(repos@.take(0) =~= Seq::<RepoNode>::empty());
    assert(select(Seq::<RepoNode>::empty(), pred).map_values(|r: RepoNode| source_of(r)) =~= Seq::<Source>::empty());
    while i < repos.len()
        invariant
            i <= repos@.len(),
            pred == (|r: RepoNode| r.active),
            sources@ == select(repos@.take(i as int), pred).map_values(|r: RepoNode| source_of(r)),
        decreases repos.len() - i,
    {
        proof {
            lemma_select_step(repos@, pred, i as int);
        }
        let node = &repos[i];
        if node.active {
            let s = Source {
                name: node.name.clone(),
                url: match &node.url {
                    Some(u) => Some(u.clone()),
                    None => None,
                },
            };
            let ghost before = sources@;
            sources.push(s);
            assert(sources@ =~= before.push(source_of(repos@[i as int])));
            assert(select(repos@.take(i as int), pred).push(repos@[i as int]).map_values(|r: RepoNode| source_of(r)) =~= select(repos@.take(i as int), pred).map_values(|r: RepoNode| source_of(r)).push(source_of(repos@[i as int])));
        }
        i = i + 1;
    }
    assert(repos@.take(repos@.len() as int) =~= repos@);
    sources
}

} // verus!
