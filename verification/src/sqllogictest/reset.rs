//! Bringing a server to a known state.

use vstd::prelude::*;

use crate::sql_parser::text::{no_text, text_eq, texts_view};

verus! {

/// What a schema is called that holds the state of one part of the server.
pub open spec fn schema_url(postgres_url: Seq<char>, schema: Seq<char>) -> Seq<char> {
    no_text() + postgres_url + "?options=--search_path=sqllogictest_"@ + schema
}

/// Where the parts of the server keep their state: consensus, adapter and storage.
pub fn server_urls(postgres_url: &str) -> (r: (String, String, String))
    ensures
        r.0@ == schema_url(postgres_url@, "consensus"@),
        r.1@ == schema_url(postgres_url@, "adapter"@),
        r.2@ == schema_url(postgres_url@, "storage"@),
{
    (
        String::new().concat(postgres_url).concat("?options=--search_path=sqllogictest_").concat(
            "consensus",
        ),
        String::new().concat(postgres_url).concat("?options=--search_path=sqllogictest_").concat(
            "adapter",
        ),
        String::new().concat(postgres_url).concat("?options=--search_path=sqllogictest_").concat(
            "storage",
        ),
    )
}

/// The commands that empty the server's state before it starts.
pub open spec fn setup_text() -> Seq<char> {
    "DROP SCHEMA IF EXISTS sqllogictest_consensus CASCADE;
                     DROP SCHEMA IF EXISTS sqllogictest_adapter CASCADE;
                     DROP SCHEMA IF EXISTS sqllogictest_storage CASCADE;
                     CREATE SCHEMA sqllogictest_consensus;
                     CREATE SCHEMA sqllogictest_adapter;
                     CREATE SCHEMA sqllogictest_storage;"@
}

/// The commands that empty the server's state before it starts.
pub fn setup_commands() -> (r: String)
    ensures
        r@ == setup_text(),
{
    String::from_str(
        "DROP SCHEMA IF EXISTS sqllogictest_consensus CASCADE;
                     DROP SCHEMA IF EXISTS sqllogictest_adapter CASCADE;
                     DROP SCHEMA IF EXISTS sqllogictest_storage CASCADE;
                     CREATE SCHEMA sqllogictest_consensus;
                     CREATE SCHEMA sqllogictest_adapter;
                     CREATE SCHEMA sqllogictest_storage;",
    )
}

/// How often connecting to the database is tried.
pub const MAX_TRIES: u32 = 5;

/// How many milliseconds to wait before the try after `failed` ones: twice as many each time.
pub open spec fn backoff(failed: int) -> int
    decreases failed,
{
    if failed <= 1 {
        125
    } else {
        2 * backoff(failed - 1)
    }
}

/// How many milliseconds to wait once `failed` tries to connect have failed, unless that was the
/// last one.
pub fn retry_after(failed: u32) -> (r: Option<u64>)
    requires
        failed >= 1,
    ensures
        match r {
            Some(ms) => failed < MAX_TRIES && ms == backoff(failed as int),
            None => failed >= MAX_TRIES,
        },
{
    if failed >= MAX_TRIES {
        return None;
    }
    let mut ms: u64 = 125;
    let mut k: u32 = 1;
    reveal_with_fuel(backoff, 5);
    while k < failed
        invariant
            1 <= k <= failed < MAX_TRIES,
            ms == backoff(k as int),
            ms <= 125 * 16,
        decreases failed - k,
    {
        proof {
            reveal_with_fuel(backoff, 5);
        }
        ms = 2 * ms;
        k += 1;
    }
    Some(ms)
}

/// Where the server keeps the data of its collections.
pub fn blob_uri(temp_dir: &str) -> (r: String)
    ensures
        r@ == no_text() + "file://"@ + temp_dir@ + "/persist/blob"@,
{
    String::new().concat("file://").concat(temp_dir).concat("/persist/blob")
}

/// One step of bringing the server's database to its initial state.
#[derive(Debug)]
pub enum ResetStep {
    /// Send commands as the user of the tests.
    User(String),
    /// Send commands as the system user.
    System(String),
    /// Ask for the names of the databases.
    Databases,
    /// Ask for the names of the users' clusters.
    Clusters,
    /// Ask for the names and sizes of the default cluster's replicas.
    Replicas,
    /// Open new connections and close all others.
    Reconnect,
}

/// What a [`ResetStep`] stands for.
pub enum StepView {
    User(Seq<char>),
    System(Seq<char>),
    Databases,
    Clusters,
    Replicas,
    Reconnect,
}

impl View for ResetStep {
    type V = StepView;

    open spec fn view(&self) -> StepView {
        match self {
            ResetStep::User(s) => StepView::User(s@),
            ResetStep::System(s) => StepView::System(s@),
            ResetStep::Databases => StepView::Databases,
            ResetStep::Clusters => StepView::Clusters,
            ResetStep::Replicas => StepView::Replicas,
            ResetStep::Reconnect => StepView::Reconnect,
        }
    }
}

/// What steps stand for.
pub open spec fn steps_view(steps: Seq<ResetStep>) -> Seq<StepView> {
    Seq::new(steps.len(), |k: int| steps[k]@)
}

/// What has been learned of the server's state.
#[derive(Debug)]
pub enum ResetFinding {
    /// Nothing yet.
    Start,
    /// The names of the databases.
    Databases(Vec<String>),
    /// The names of the users' clusters.
    Clusters(Vec<String>),
    /// The names and sizes of the default cluster's replicas.
    Replicas(Vec<(String, String)>),
}

/// The steps at the start.
pub open spec fn first_steps() -> Seq<StepView> {
    seq![
        StepView::User("ROLLBACK;"@),
        StepView::System(
            "ROLLBACK;
                 SET cluster = mz_introspection;
                 RESET cluster_replica;"@,
        ),
        StepView::System("ALTER SYSTEM RESET ALL"@),
        StepView::Databases,
    ]
}

/// A command on a name.
pub open spec fn on_name(command: Seq<char>, name: Seq<char>) -> StepView {
    StepView::System(no_text() + command + name)
}

/// The steps that drop databases.
pub open spec fn drop_databases(names: Seq<Seq<char>>) -> Seq<StepView> {
    Seq::new(names.len(), |k: int| on_name("DROP DATABASE "@, names[k]))
}

/// The steps that drop the first `n` clusters, but for the default one.
pub open spec fn drop_clusters(names: Seq<Seq<char>>, n: int) -> Seq<StepView>
    decreases n,
{
    if n <= 0 || n > names.len() {
        Seq::empty()
    } else if names[n - 1] == "default"@ {
        drop_clusters(names, n - 1)
    } else {
        drop_clusters(names, n - 1).push(on_name("DROP CLUSTER "@, names[n - 1]))
    }
}

/// Whether a replica is the one that the default cluster is to have.
pub open spec fn is_default_replica(name: Seq<char>, size: Seq<char>) -> bool {
    name == "r1"@ && size == "1"@
}

/// The steps that drop the first `n` replicas, but for the default one.
pub open spec fn drop_replicas(rows: Seq<(String, String)>, n: int) -> Seq<StepView>
    decreases n,
{
    if n <= 0 || n > rows.len() {
        Seq::empty()
    } else if is_default_replica(rows[n - 1].0@, rows[n - 1].1@) {
        drop_replicas(rows, n - 1)
    } else {
        drop_replicas(rows, n - 1).push(
            on_name("DROP CLUSTER REPLICA default."@, rows[n - 1].0@),
        )
    }
}

/// The steps at the end: initial privileges and limits.
pub open spec fn last_steps(enable_table_keys: bool) -> Seq<StepView> {
    let steps = seq![
        StepView::System("GRANT USAGE ON DATABASE materialize TO PUBLIC"@),
        StepView::System("GRANT CREATE ON DATABASE materialize TO materialize"@),
        StepView::System("GRANT CREATE ON SCHEMA materialize.public TO materialize"@),
        StepView::System("GRANT USAGE ON CLUSTER default TO PUBLIC"@),
        StepView::System("GRANT CREATE ON CLUSTER default TO materialize"@),
        StepView::System("ALTER SYSTEM SET max_tables = 100"@),
    ];
    let keys = if enable_table_keys {
        steps.push(StepView::System("ALTER SYSTEM SET enable_table_keys = true"@))
    } else {
        steps
    };
    keys.push(StepView::Reconnect)
}

/// Whether the default cluster is among clusters.
pub open spec fn has_default_cluster(names: Seq<Seq<char>>) -> bool {
    exists|k: int| 0 <= k < names.len() && #[trigger] names[k] == "default"@
}

/// Whether the default replica is among replicas.
pub open spec fn has_default_replica(rows: Seq<(String, String)>) -> bool {
    exists|k: int|
        0 <= k < rows.len() && is_default_replica((#[trigger] rows[k]).0@, rows[k].1@)
}

/// The steps that follow upon a finding: all databases are dropped and one is made; all
/// clusters and replicas are dropped but for the default ones, which are made if they are
/// missing; privileges and limits are set.
pub open spec fn steps_after(finding: ResetFinding, enable_table_keys: bool) -> Seq<StepView> {
    match finding {
        ResetFinding::Start => first_steps(),
        ResetFinding::Databases(names) => drop_databases(texts_view(names@)).push(
            StepView::System("CREATE DATABASE materialize"@),
        ).push(StepView::Clusters),
        ResetFinding::Clusters(names) => {
            let all = texts_view(names@);
            let drops = drop_clusters(all, all.len() as int);
            let steps = if has_default_cluster(all) {
                drops
            } else {
                drops.push(StepView::System("CREATE CLUSTER default REPLICAS ()"@))
            };
            steps.push(StepView::Replicas)
        },
        ResetFinding::Replicas(rows) => {
            let drops = drop_replicas(rows@, rows@.len() as int);
            let steps = if has_default_replica(rows@) {
                drops
            } else {
                drops.push(
                    StepView::System("CREATE CLUSTER REPLICA default.r1 SIZE '1'"@),
                )
            };
            steps + last_steps(enable_table_keys)
        },
    }
}

fn system(s: &str) -> (r: ResetStep)
    ensures
        r@ == StepView::System(s@),
{
    ResetStep::System(String::from_str(s))
}

fn system_on(command: &str, name: &str) -> (r: ResetStep)
    ensures
        r@ == on_name(command@, name@),
{
    ResetStep::System(String::new().concat(command).concat(name))
}

fn start_steps() -> (r: Vec<ResetStep>)
    ensures
        steps_view(r@) == first_steps(),
{
    let mut out: Vec<ResetStep> = Vec::new();
    out.push(ResetStep::User(String::from_str("ROLLBACK;")));
    out.push(
        system(
            "ROLLBACK;
                 SET cluster = mz_introspection;
                 RESET cluster_replica;",
        ),
    );
    out.push(system("ALTER SYSTEM RESET ALL"));
    out.push(ResetStep::Databases);
    assert(steps_view(out@) =~= first_steps());
    out
}

fn database_steps(names: &Vec<String>) -> (r: Vec<ResetStep>)
    ensures
        steps_view(r@) == drop_databases(texts_view(names@)).push(
            StepView::System("CREATE DATABASE materialize"@),
        ).push(StepView::Clusters),
{
    let mut out: Vec<ResetStep> = Vec::new();
    let mut k: usize = 0;
    while k < names.len()
        invariant
            k <= names.len(),
            out.len() == k,
            forall|j: int|
                0 <= j < k ==> (#[trigger] out@[j])@ == on_name("DROP DATABASE "@, names@[j]@),
        decreases names.len() - k,
    {
        out.push(system_on("DROP DATABASE ", names[k].as_str()));
        k += 1;
    }
    out.push(system("CREATE DATABASE materialize"));
    out.push(ResetStep::Clusters);
    assert(steps_view(out@) =~= drop_databases(texts_view(names@)).push(
        StepView::System("CREATE DATABASE materialize"@),
    ).push(StepView::Clusters));
    out
}

fn cluster_steps(names: &Vec<String>) -> (r: Vec<ResetStep>)
    ensures
        steps_view(r@) == steps_after(ResetFinding::Clusters(*names), false),
{
    let ghost all = texts_view(names@);
    let mut out: Vec<ResetStep> = Vec::new();
    let mut needs_default_cluster = true;
    let mut k: usize = 0;
    assert(steps_view(out@) =~= Seq::empty());
    while k < names.len()
        invariant
            k <= names.len(),
            all == texts_view(names@),
            steps_view(out@) == drop_clusters(all, k as int),
            needs_default_cluster == !(exists|j: int| 0 <= j < k && #[trigger] all[j] == "default"@),
        decreases names.len() - k,
    {
        assert(all[k as int] == names@[k as int]@);
        if text_eq(names[k].as_str(), "default") {
            needs_default_cluster = false;
        } else {
            let ghost before = steps_view(out@);
            let step = system_on("DROP CLUSTER ", names[k].as_str());
            out.push(step);
            assert(steps_view(out@) =~= before.push(step@));
        }
        k += 1;
    }
    let ghost before = steps_view(out@);
    if needs_default_cluster {
        out.push(system("CREATE CLUSTER default REPLICAS ()"));
        assert(steps_view(out@) =~= before.push(
            StepView::System("CREATE CLUSTER default REPLICAS ()"@),
        ));
    }
    let ghost before = steps_view(out@);
    out.push(ResetStep::Replicas);
    assert(steps_view(out@) =~= before.push(StepView::Replicas));
    out
}

fn final_steps(enable_table_keys: bool) -> (r: Vec<ResetStep>)
    ensures
        steps_view(r@) == last_steps(enable_table_keys),
{
    let mut out: Vec<ResetStep> = Vec::new();
    // Grant initial privileges.
    out.push(system("GRANT USAGE ON DATABASE materialize TO PUBLIC"));
    out.push(system("GRANT CREATE ON DATABASE materialize TO materialize"));
    out.push(system("GRANT CREATE ON SCHEMA materialize.public TO materialize"));
    out.push(system("GRANT USAGE ON CLUSTER default TO PUBLIC"));
    out.push(system("GRANT CREATE ON CLUSTER default TO materialize"));
    // Some sqllogic tests require more than the default amount of tables, so we increase the
    // limit for all tests.
    out.push(system("ALTER SYSTEM SET max_tables = 100"));
    if enable_table_keys {
        out.push(system("ALTER SYSTEM SET enable_table_keys = true"));
    }
    out.push(ResetStep::Reconnect);
    assert(steps_view(out@) =~= last_steps(enable_table_keys));
    out
}

fn replica_steps(rows: &Vec<(String, String)>, enable_table_keys: bool) -> (r: Vec<ResetStep>)
    ensures
        steps_view(r@) == steps_after(ResetFinding::Replicas(*rows), enable_table_keys),
{
    let mut out: Vec<ResetStep> = Vec::new();
    let mut needs_default_replica = true;
    let mut k: usize = 0;
    assert(steps_view(out@) =~= Seq::empty());
    while k < rows.len()
        invariant
            k <= rows.len(),
            steps_view(out@) == drop_replicas(rows@, k as int),
            needs_default_replica == !(exists|j: int|
                0 <= j < k && is_default_replica((#[trigger] rows@[j]).0@, rows@[j].1@)),
        decreases rows.len() - k,
    {
        if text_eq(rows[k].0.as_str(), "r1") && text_eq(rows[k].1.as_str(), "1") {
            assert(is_default_replica(rows@[k as int].0@, rows@[k as int].1@));
            needs_default_replica = false;
        } else {
            let ghost before = steps_view(out@);
            let step = system_on("DROP CLUSTER REPLICA default.", rows[k].0.as_str());
            out.push(step);
            assert(steps_view(out@) =~= before.push(step@));
        }
        k += 1;
    }
    let ghost before = steps_view(out@);
    if needs_default_replica {
        out.push(system("CREATE CLUSTER REPLICA default.r1 SIZE '1'"));
        assert(steps_view(out@) =~= before.push(
            StepView::System("CREATE CLUSTER REPLICA default.r1 SIZE '1'"@),
        ));
    }
    let ghost before = steps_view(out@);
    let mut rest = final_steps(enable_table_keys);
    let ghost more = steps_view(rest@);
    out.append(&mut rest);
    assert(steps_view(out@) =~= before + more);
    out
}

/// The steps that follow upon a finding about the server's state.
pub fn reset_steps(finding: &ResetFinding, enable_table_keys: bool) -> (r: Vec<ResetStep>)
    ensures
        steps_view(r@) == steps_after(*finding, enable_table_keys),
{
    match finding {
        ResetFinding::Start => start_steps(),
        ResetFinding::Databases(names) => database_steps(names),
        // The default cluster's replica is not destroyed if it exists, as turning on a
        // cluster replica is exceptionally slow.
        ResetFinding::Clusters(names) => cluster_steps(names),
        ResetFinding::Replicas(rows) => replica_steps(rows, enable_table_keys),
    }
}

} // verus!
