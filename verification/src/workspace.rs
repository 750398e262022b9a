//! Resolve the container-side workspace directory used as `docker exec -w`.
//!
//! Precedence (most authoritative first):
//!   1. the live container's actual mount destination (`docker inspect`)
//!   2. `workspaceFolder` from devcontainer.json, with `${...}` expanded
//!   3. `/workspaces/<project-basename>` convention

use crate::devcontainer::{
    conventional_folder, expanded, law_conventional_folder, workspace_of, Devcontainer,
    DevcontainerView,
};
use crate::docker::container::{
    law_bound_root_is_the_workspace, mounted_workspace, tells_mount, workspace_mount_destination,
};
use crate::docker::{Error, ErrorView};
use crate::path::plain_name;
use crate::request::seen;
use crate::text::lines_of;
use vstd::prelude::*;

verus! {

/// The workspace directory, given what docker answered on the mounts.
pub open spec fn workspace_in(
    dc: DevcontainerView,
    mounts: Result<Seq<char>, ErrorView>,
) -> Seq<char> {
    match mounted_workspace(mounts, dc.project_root) {
        Some(dest) => dest,
        None => workspace_of(dc),
    }
}

/// Resolve the workspace directory. Prefers the running container's mount
/// destination; otherwise falls back to the expanded json / convention.
pub fn resolve(dc: &Devcontainer, mounts: &Result<String, Error>) -> (r: String)
    ensures
        r@ == workspace_in(dc.deep_view(), seen(*mounts)),
{
    match workspace_mount_destination(mounts, dc.project_root.as_str()) {
        Some(dest) => dest,
        None => dc.resolved_workspace_folder(),
    }
}

/// The mount destination first, then the expanded setting, then the
/// convention.
pub proof fn law_workspace_precedence(
    dc: DevcontainerView,
    mounts: Result<Seq<char>, ErrorView>,
)
    ensures
        mounted_workspace(mounts, dc.project_root) matches Some(dest) ==> workspace_in(dc, mounts)
            == dest,
        mounted_workspace(mounts, dc.project_root) is None && dc.workspace_folder is Some
            ==> workspace_in(dc, mounts) == expanded(
            dc.workspace_folder->Some_0,
            dc.project_root,
        ),
        mounted_workspace(mounts, dc.project_root) is None && dc.workspace_folder is None
            ==> workspace_in(dc, mounts) == conventional_folder(dc.project_root),
{
}

/// The shell opens where the project root is bound: at the destination of the
/// first mount whose source is the root.
pub proof fn law_workspace_is_where_the_root_is_bound(
    dc: DevcontainerView,
    text: Seq<char>,
    k: int,
    destination: Seq<char>,
)
    requires
        0 <= k < lines_of(text).len(),
        tells_mount(lines_of(text)[k], dc.project_root, destination),
        destination.len() > 0,
        forall|j: int, other: Seq<char>|
            0 <= j < k && #[trigger] tells_mount(lines_of(text)[j], dc.project_root, other)
                ==> other.len() == 0,
    ensures
        workspace_in(dc, Ok(text)) == destination,
{
    law_bound_root_is_the_workspace(text, dc.project_root, k, destination);
}

/// Where docker gives no mounts, the configuration decides: what it declares,
/// or else the convention.
pub proof fn law_workspace_without_mounts(
    dc: DevcontainerView,
    e: ErrorView,
    dir: Seq<char>,
    name: Seq<char>,
)
    requires
        plain_name(name),
        dc.project_root == dir + seq!['/'] + name,
    ensures
        dc.workspace_folder is None ==> workspace_in(dc, Err(e)) == "/workspaces/"@ + name,
        dc.workspace_folder matches Some(folder) ==> workspace_in(dc, Err(e)) == expanded(
            folder,
            dc.project_root,
        ),
{
    law_conventional_folder(dc, dir, name);
}

} // verus!
