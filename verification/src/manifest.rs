//! What a store says of itself: its setup, its statistics and its versions.

use crate::error::StorageError;
use crate::normalize::NORMALIZER_STAMP;
use crate::order::is_text_less;
use crate::path::FilePath;
use crate::sort::sort_vec;
use crate::store::MemoryStore;
use crate::text::same_text;
use vstd::prelude::*;
use vstd::relations::sorted_by;

verus! {

broadcast use vstd::string::group_string_axioms;

// ---------------------------------------------------------------------------
// Setting a store up
// ---------------------------------------------------------------------------

/// The ignore file of a project's store.
pub const STATE_GITIGNORE: &'static str =
    "# Per-machine session bookkeeping — not shared state.\n# `memories/` is deliberately NOT ignored: it is meant to be committed.\nstate/\n";

/// The configuration that a project's store starts with.
pub const PROJECT_CONFIG: &'static str =
    "# EngramDB configuration\n# See documentation for available settings\n";

/// The configuration that the store of all projects starts with.
pub const GLOBAL_CONFIG: &'static str =
    "# EngramDB global configuration\n# See documentation for available settings\n";

/// The configuration that a group's store starts with.
pub const GROUP_CONFIG: &'static str =
    "# EngramDB group configuration\n# See documentation for available settings\n";

/// Which files a store has already.
#[derive(Debug, Clone, Copy, PartialEq, Eq, Structural)]
pub struct Present {
    pub manifest: bool,
    pub gitignore: bool,
    pub config: bool,
}

/// The files that a store still needs.
#[derive(Debug)]
pub struct Missing {
    /// A manifest for a project of this name.
    pub manifest: Option<String>,
    /// An ignore file with this text.
    pub gitignore: Option<String>,
    /// A configuration with this text.
    pub config: Option<String>,
}

/// The name that a project goes by: that of its directory.
pub open spec fn name_of(dir: Seq<crate::path::PartView>) -> Seq<char> {
    match crate::path::file_name(dir) {
        Some(name) => name,
        None => "unnamed-project"@,
    }
}

/// The name that a project goes by: that of its directory.
pub fn project_name(dir: &FilePath) -> (r: String)
    ensures
        r@ == name_of(dir@),
{
    match dir.file_name() {
        Some(name) => name,
        None => "unnamed-project".to_owned(),
    }
}

/// Which files a store has once the missing ones were written.
pub open spec fn completed(present: Present, missing: Missing) -> Present {
    Present {
        manifest: present.manifest || missing.manifest is Some,
        gitignore: present.gitignore || missing.gitignore is Some,
        config: present.config || missing.config is Some,
    }
}

/// Whether exactly the missing files of a store are made: a manifest with its
/// name, an ignore file where it lies in a repository, and a configuration.
pub open spec fn is_setup(
    name: Seq<char>,
    in_repository: bool,
    config: Seq<char>,
    present: Present,
    missing: Missing,
) -> bool {
    &&& crate::text::opt_text(missing.manifest) == (if present.manifest {
        None
    } else {
        Some(name)
    })
    &&& crate::text::opt_text(missing.gitignore) == (if present.gitignore || !in_repository {
        None
    } else {
        Some(STATE_GITIGNORE@)
    })
    &&& crate::text::opt_text(missing.config) == (if present.config {
        None
    } else {
        Some(config)
    })
}

/// What setting up a store writes.
fn set_up(name: String, in_repository: bool, config: &str, present: Present) -> (r: Missing)
    ensures
        is_setup(name@, in_repository, config@, present, r),
{
    Missing {
        manifest: if present.manifest {
            None
        } else {
            Some(name)
        },
        gitignore: if present.gitignore || !in_repository {
            None
        } else {
            Some(STATE_GITIGNORE.to_owned())
        },
        config: if present.config {
            None
        } else {
            Some(config.to_owned())
        },
    }
}

/// How a store that is made when it is first opened is opened.
fn open_or_set_up(present: bool) -> (r: Opening)
    ensures
        r == (if present {
            Opening::AsItIs
        } else {
            Opening::SetUpFirst
        }),
{
    if present {
        Opening::AsItIs
    } else {
        Opening::SetUpFirst
    }
}

impl MemoryStore {
    /// What setting up the store of a project writes. A file that is there
    /// already is never written again, whatever it holds.
    pub fn init(dir: &FilePath, present: Present) -> (r: Missing)
        ensures
            is_setup(name_of(dir@), true, PROJECT_CONFIG@, present, r),
    {
        set_up(project_name(dir), true, PROJECT_CONFIG, present)
    }

    /// What setting up the store of all projects writes.
    pub fn init_global(present: Present) -> (r: Missing)
        ensures
            is_setup("global"@, false, GLOBAL_CONFIG@, present, r),
    {
        set_up("global".to_owned(), false, GLOBAL_CONFIG, present)
    }

    /// What setting up the store of a group writes.
    pub fn init_group(group_id: &str, present: Present) -> (r: Missing)
        ensures
            is_setup("group:"@ + group_id@, false, GROUP_CONFIG@, present, r),
    {
        let mut name = "group:".to_owned();
        name.append(group_id);
        set_up(name, false, GROUP_CONFIG, present)
    }

    /// What opening the store of a project writes, given whether the store and
    /// its ignore file are there: the ignore file, where an older store lacks
    /// it. The store itself is only ever made on request.
    pub fn open(present: bool, ignored: bool) -> (r: Result<Option<String>, StorageError>)
        ensures
            match r {
                Ok(gitignore) => present && crate::text::opt_text(gitignore) == (if ignored {
                    None
                } else {
                    Some(STATE_GITIGNORE@)
                }),
                Err(e) => !present && e is NotInitialized,
            },
    {
        if !present {
            Err(StorageError::NotInitialized)
        } else if ignored {
            Ok(None)
        } else {
            Ok(Some(STATE_GITIGNORE.to_owned()))
        }
    }

    /// How the store of all projects is opened, given whether it is there.
    pub fn open_global(present: bool) -> (r: Opening)
        ensures
            r == (if present {
                Opening::AsItIs
            } else {
                Opening::SetUpFirst
            }),
    {
        open_or_set_up(present)
    }

    /// How the store of a group is opened, given whether it is there.
    pub fn open_group(present: bool) -> (r: Opening)
        ensures
            r == (if present {
                Opening::AsItIs
            } else {
                Opening::SetUpFirst
            }),
    {
        open_or_set_up(present)
    }
}

/// How a store is opened.
#[derive(Debug, Clone, Copy, PartialEq, Eq, Structural)]
pub enum Opening {
    /// It is there.
    AsItIs,
    /// It has to be set up first.
    SetUpFirst,
}

/// Setting up a store that was set up already writes nothing.
pub proof fn setting_up_is_idempotent(
    name: Seq<char>,
    in_repository: bool,
    config: Seq<char>,
    present: Present,
    first: Missing,
    second: Missing,
)
    requires
        is_setup(name, in_repository, config, present, first),
        is_setup(name, in_repository, config, completed(present, first), second),
    ensures
        second.manifest is None,
        second.gitignore is None,
        second.config is None,
{
}

// ---------------------------------------------------------------------------
// Migration
// ---------------------------------------------------------------------------

/// What the manifest of a store records of the index.
#[derive(Debug, Clone, PartialEq, Eq)]
pub struct Stamps {
    /// The version of the index's columns.
    pub schema_version: String,
    /// What produced the stored keyword stems; nothing in an old store.
    pub normalizer: Option<String>,
}

/// Whether the index must be rebuilt: it is behind the current columns, or its
/// keyword stems were produced by anything but the current normalizer.
/// `schema_is_current` tells of a version whether it is the current one or a
/// later one.
pub open spec fn must_migrate(stored: Option<Stamps>, schema_is_current: bool) -> bool {
    match stored {
        None => true,
        Some(s) => !schema_is_current || crate::text::opt_text(s.normalizer) != Some(
            NORMALIZER_STAMP@,
        ),
    }
}

impl MemoryStore {
    /// Whether the index of a store must be rebuilt. `stored` is what its
    /// manifest records, nothing where there is no readable one, and
    /// `schema_is_current` whether the recorded version is the current one or a
    /// later one.
    pub fn migrate_schema_if_needed(stored: &Option<Stamps>, schema_is_current: bool) -> (r: bool)
        ensures
            r == must_migrate(*stored, schema_is_current),
    {
        match stored {
            None => true,
            Some(s) => {
                let same = match &s.normalizer {
                    Some(n) => same_text(n.as_str(), NORMALIZER_STAMP),
                    None => false,
                };
                !schema_is_current || !same
            },
        }
    }

    /// What a manifest records once the index was rebuilt: both stamps at once,
    /// as one rebuild brings both up to date.
    pub fn stamp(current_schema_version: &str) -> (r: Stamps)
        ensures
            r.schema_version@ == current_schema_version@,
            crate::text::opt_text(r.normalizer) == Some(NORMALIZER_STAMP@),
    {
        Stamps {
            schema_version: current_schema_version.to_owned(),
            normalizer: Some(NORMALIZER_STAMP.to_owned()),
        }
    }
}

/// A store whose index was rebuilt and stamped is left alone.
pub proof fn a_migrated_store_is_left_alone(stamped: Stamps)
    requires
        crate::text::opt_text(stamped.normalizer) == Some(NORMALIZER_STAMP@),
    ensures
        !must_migrate(Some(stamped), true),
{
}

// ---------------------------------------------------------------------------
// Statistics
// ---------------------------------------------------------------------------

/// What a manifest records of the memories.
#[derive(Debug, PartialEq, Eq)]
pub struct ManifestStats {
    pub memory_count: usize,
    /// The logical scopes that memories have.
    pub logical_scopes: Vec<String>,
}

/// The order of texts, each with itself.
pub open spec fn text_at_most() -> spec_fn(Seq<char>, Seq<char>) -> bool {
    |a: Seq<char>, b: Seq<char>| !crate::order::text_less(b, a)
}

/// Whether `s` is the texts of `t` in order.
pub open spec fn is_sorted_form(s: Seq<Seq<char>>, t: Seq<Seq<char>>) -> bool {
    sorted_by(s, text_at_most()) && s.to_multiset() == t.to_multiset()
}

proof fn lemma_text_preorder()
    ensures
        crate::sort::total_preorder(text_at_most()),
{
    crate::order::lemma_text_less();
    let lt = |a: Seq<char>, b: Seq<char>| crate::order::text_less(a, b);
    let leq = text_at_most();
    assert forall|a: Seq<char>, b: Seq<char>| #[trigger] leq(a, b) || leq(b, a) by {
        if lt(b, a) && lt(a, b) {
            assert(lt(a, a));
        }
    }
    assert forall|a: Seq<char>, b: Seq<char>, c: Seq<char>| #[trigger]
        leq(a, b) && #[trigger] leq(b, c) implies leq(a, c) by {
        if lt(c, a) {
            if a != b {
                assert(lt(a, b) || lt(b, a));
                assert(lt(c, b));
            }
        }
    }
}

/// The sorted form of some texts is determined by them.
proof fn lemma_sorted_form_is_unique(s: Seq<Seq<char>>, t: Seq<Seq<char>>, u: Seq<Seq<char>>)
    requires
        is_sorted_form(s, u),
        is_sorted_form(t, u),
    ensures
        s == t,
{
    let leq = text_at_most();
    let lt = |a: Seq<char>, b: Seq<char>| crate::order::text_less(a, b);
    crate::order::lemma_text_less();
    assert forall|a: Seq<char>, b: Seq<char>|
        s.contains(a) && s.contains(b) && #[trigger] leq(a, b) && #[trigger] leq(b, a) implies a
        == b by {
        if a != b {
            assert(lt(a, b) || lt(b, a));
        }
    }
    crate::sort::lemma_sorted_is_unique(s, t, leq);
}

proof fn lemma_map_multiset(a: Seq<String>, b: Seq<String>)
    requires
        a.to_multiset() == b.to_multiset(),
    ensures
        crate::text::texts(a).to_multiset() == crate::text::texts(b).to_multiset(),
{
    lemma_texts_multiset(a);
    lemma_texts_multiset(b);
}

/// The texts of strings as a multiset, one string after another.
spec fn counted(m: vstd::multiset::Multiset<String>, s: Seq<char>) -> nat {
    m.filter(|x: String| x@ == s).len()
}

proof fn lemma_texts_multiset(a: Seq<String>)
    ensures
        forall|s: Seq<char>| #[trigger]
            crate::text::texts(a).to_multiset().count(s) == counted(a.to_multiset(), s),
    decreases a.len(),
{
    broadcast use vstd::multiset::group_multiset_axioms;

    let texts = crate::text::texts(a);
    if a.len() == 0 {
        vstd::seq_lib::to_multiset_len(a);
        vstd::seq_lib::to_multiset_len(texts);
        assert forall|s: Seq<char>| #[trigger]
            texts.to_multiset().count(s) == counted(a.to_multiset(), s) by {
            let f = |x: String| x@ == s;
            assert(a.to_multiset().filter(f) =~= vstd::multiset::Multiset::empty());
        }
    } else {
        let b = a.drop_last();
        let last = a.last();
        lemma_texts_multiset(b);
        assert(a =~= b.push(last));
        assert(texts =~= crate::text::texts(b).push(last@));
        vstd::seq_lib::to_multiset_build(b, last);
        vstd::seq_lib::to_multiset_build(crate::text::texts(b), last@);
        assert forall|s: Seq<char>| #[trigger]
            texts.to_multiset().count(s) == counted(a.to_multiset(), s) by {
            let f = |x: String| x@ == s;
            let m = b.to_multiset();
            if last@ == s {
                assert(m.insert(last).filter(f) =~= m.filter(f).insert(last));
            } else {
                assert(m.insert(last).filter(f) =~= m.filter(f));
            }
            assert(crate::text::texts(b).to_multiset().count(s) == counted(m, s));
        }
    }
}

/// Puts texts in order.
pub fn sort_texts(v: Vec<String>) -> (r: Vec<String>)
    ensures
        is_sorted_form(crate::text::texts(r@), crate::text::texts(v@)),
{
    let ghost leq = |a: String, b: String| !crate::order::text_less(b@, a@);
    proof {
        lemma_text_preorder();
        let t = text_at_most();
        assert forall|a: String, b: String| #[trigger] leq(a, b) || leq(b, a) by {
            assert(t(a@, b@) || t(b@, a@));
        }
        assert forall|a: String, b: String, c: String| #[trigger]
            leq(a, b) && #[trigger] leq(b, c) implies leq(a, c) by {
            assert(t(a@, b@) && t(b@, c@));
            assert(t(a@, c@));
        }
    }
    let le = |a: &String, b: &String| -> (r: bool)
        ensures
            r == !crate::order::text_less(b@, a@),
        { !is_text_less(b.as_str(), a.as_str()) };
    let ghost all = v@;
    let r = sort_vec(v, &le, Ghost(leq));
    proof {
        lemma_map_multiset(r@, all);
        let s = crate::text::texts(r@);
        assert forall|i: int, j: int| 0 <= i < j < s.len() implies text_at_most()(
            #[trigger] s[i],
            #[trigger] s[j],
        ) by {
            assert(leq(r@[i], r@[j]));
        }
    }
    r
}

/// Whether what a manifest records is what holds.
pub open spec fn up_to_date(
    recorded: ManifestStats,
    memory_count: usize,
    scopes: Seq<Seq<char>>,
) -> bool {
    recorded.memory_count == memory_count && crate::text::texts(
        recorded.logical_scopes@,
    ).to_multiset() == scopes.to_multiset()
}

impl MemoryStore {
    /// The statistics to record, in a form that depends on what they are only;
    /// nothing where the recorded ones still hold, in whatever order.
    pub fn update_manifest_stats(
        recorded: &ManifestStats,
        memory_count: usize,
        scopes: Vec<String>,
    ) -> (r: Option<ManifestStats>)
        ensures
            match r {
                None => up_to_date(*recorded, memory_count, crate::text::texts(scopes@)),
                Some(s) => !up_to_date(*recorded, memory_count, crate::text::texts(scopes@))
                    && s.memory_count == memory_count && is_sorted_form(
                    crate::text::texts(s.logical_scopes@),
                    crate::text::texts(scopes@),
                ),
            },
    {
        let ghost all = crate::text::texts(scopes@);
        let ghost old = crate::text::texts(recorded.logical_scopes@);
        let sorted = sort_texts(scopes);
        let current = sort_texts(crate::text::clone_texts(recorded.logical_scopes.as_slice()));
        let same = same_list(current.as_slice(), sorted.as_slice());
        proof {
            let a = crate::text::texts(current@);
            let b = crate::text::texts(sorted@);
            if old.to_multiset() == all.to_multiset() {
                lemma_sorted_form_is_unique(a, b, all);
            }
        }
        if recorded.memory_count == memory_count && same {
            None
        } else {
            Some(ManifestStats { memory_count, logical_scopes: sorted })
        }
    }
}

/// Whether two lists hold the same texts in the same order.
fn same_list(a: &[String], b: &[String]) -> (r: bool)
    ensures
        r == (crate::text::texts(a@) == crate::text::texts(b@)),
{
    if a.len() != b.len() {
        assert(crate::text::texts(a@).len() != crate::text::texts(b@).len());
        return false;
    }
    let mut i: usize = 0;
    while i < a.len()
        invariant
            i <= a.len(),
            a@.len() == b@.len(),
            forall|j: int| 0 <= j < i ==> (#[trigger] a@[j])@ == b@[j]@,
        decreases a.len() - i,
    {
        if !same_text(a[i].as_str(), b[i].as_str()) {
            assert(crate::text::texts(a@)[i as int] != crate::text::texts(b@)[i as int]);
            return false;
        }
        i += 1;
    }
    assert(crate::text::texts(a@) =~= crate::text::texts(b@));
    true
}

/// Statistics that were just recorded need no recording.
pub proof fn recorded_statistics_are_up_to_date(
    recorded: ManifestStats,
    memory_count: usize,
    scopes: Seq<Seq<char>>,
)
    requires
        recorded.memory_count == memory_count,
        is_sorted_form(crate::text::texts(recorded.logical_scopes@), scopes),
    ensures
        up_to_date(recorded, memory_count, scopes),
{
}

/// What is recorded does not depend on the order in which the scopes were
/// found.
pub proof fn recorded_scopes_do_not_depend_on_the_order_found(
    a: Seq<Seq<char>>,
    b: Seq<Seq<char>>,
    found: Seq<Seq<char>>,
    again: Seq<Seq<char>>,
)
    requires
        found.to_multiset() == again.to_multiset(),
        is_sorted_form(a, found),
        is_sorted_form(b, again),
    ensures
        a == b,
{
    lemma_sorted_form_is_unique(a, b, found);
}

} // verus!
