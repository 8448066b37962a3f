//! Where Atlas keeps its data inside a repository.
use vstd::prelude::*;

use crate::graph::{join_of, path_join, separator_joined};
use crate::text::{chars_of, push_str, string_of};

verus! {

/// The folder that holds Atlas data, inside the repository.
pub const ATLAS_DIR: &'static str = ".atlas";

/// The graph database file, inside the Atlas folder.
pub const GRAPH_DB: &'static str = "graph.db";

/// The Atlas folder of a repository.
pub fn atlas_dir(repo: &str) -> (r: String)
    ensures
        r@ == join_of(repo@, ".atlas"@),
        separator_joined(repo@, ".atlas"@, r@),
{
    path_join(repo, ".atlas")
}

/// The graph database of a repository.
pub fn graph_db_path(repo: &str) -> (r: String)
    ensures
        r@ == join_of(join_of(repo@, ".atlas"@), "graph.db"@),
        separator_joined(repo@, ".atlas"@, join_of(repo@, ".atlas"@)),
        separator_joined(join_of(repo@, ".atlas"@), "graph.db"@, r@),
{
    let dir = atlas_dir(repo);
    path_join(dir.as_str(), "graph.db")
}

/// The Atlas folder of a repository, when it exists (`is_dir` says whether
/// it does); else the error that asks for a scan.
pub fn require_atlas_dir(repo: &str, is_dir: bool) -> (r: Result<String, String>)
    ensures
        match r {
            Ok(d) => is_dir && d@ == join_of(repo@, ".atlas"@),
            Err(e) => !is_dir && e@ == "no Atlas data found at "@ + join_of(repo@, ".atlas"@)
                + " — run `atlas scan .` first"@,
        },
        separator_joined(repo@, ".atlas"@, join_of(repo@, ".atlas"@)),
{
    let dir = atlas_dir(repo);
    if !is_dir {
        let mut msg = chars_of("no Atlas data found at ");
        push_str(&mut msg, dir.as_str());
        push_str(&mut msg, " — run `atlas scan .` first");
        return Err(string_of(msg.as_slice()));
    }
    Ok(dir)
}

/// The graph database of a repository, when it exists (`is_file` says
/// whether it does); else the error that asks for a scan.
pub fn require_graph_db(repo: &str, is_file: bool) -> (r: Result<String, String>)
    ensures
        match r {
            Ok(d) => is_file && d@ == join_of(join_of(repo@, ".atlas"@), "graph.db"@),
            Err(e) => !is_file && e@ == "no graph database at "@ + join_of(
                join_of(repo@, ".atlas"@),
                "graph.db"@,
            ) + " — run `atlas scan .` first"@,
        },
        separator_joined(repo@, ".atlas"@, join_of(repo@, ".atlas"@)),
        separator_joined(join_of(repo@, ".atlas"@), "graph.db"@, join_of(join_of(repo@, ".atlas"@), "graph.db"@)),
{
    let db = graph_db_path(repo);
    if !is_file {
        let mut msg = chars_of("no graph database at ");
        push_str(&mut msg, db.as_str());
        push_str(&mut msg, " — run `atlas scan .` first");
        return Err(string_of(msg.as_slice()));
    }
    Ok(db)
}

} // verus!
