//! Classification of the world folders that a file search reports.
//!
//! A search for `level.dat` files yields, for each hit, the folder that holds
//! the file. That folder is a world when it has a `region` subdirectory; a
//! world whose parent folder holds `eula.txt` belongs to a dedicated server.

use vstd::prelude::*;

verus! {

/// One hit of a search for `level.dat`, with what the filesystem showed of it.
#[derive(Debug, Clone)]
pub struct SearchHit {
    /// The folder that holds the `level.dat` file.
    pub folder: String,
    /// Whether that folder holds a `region` subdirectory.
    pub has_region: bool,
    /// Whether the folder above it holds an `eula.txt` file.
    pub has_server_eula: bool,
}

/// Where a hit is sorted.
#[derive(Debug, Clone, Copy, PartialEq, Eq, Structural)]
pub enum HitClass {
    /// A single-player world.
    World,
    /// A world of a dedicated server.
    Server,
    /// Not a world folder.
    Invalid,
}

/// The class of a hit: the `region` test comes first, the server test second.
pub open spec fn class_of(hit: SearchHit) -> HitClass {
    if !hit.has_region {
        HitClass::Invalid
    } else if hit.has_server_eula {
        HitClass::Server
    } else {
        HitClass::World
    }
}

/// The folders of the hits of class `class`, in order.
pub open spec fn folders_of(hits: Seq<SearchHit>, class: HitClass) -> Seq<Seq<char>>
    decreases hits.len(),
{
    if hits.len() == 0 {
        Seq::empty()
    } else if class_of(hits.last()) == class {
        folders_of(hits.drop_last(), class).push(hits.last().folder@)
    } else {
        folders_of(hits.drop_last(), class)
    }
}

/// How many hits are of class `class`.
pub open spec fn count_class(hits: Seq<SearchHit>, class: HitClass) -> nat
    decreases hits.len(),
{
    if hits.len() == 0 {
        0
    } else {
        count_class(hits.drop_last(), class) + if class_of(hits.last()) == class {
            1nat
        } else {
            0nat
        }
    }
}

proof fn lemma_count_class_bound(hits: Seq<SearchHit>, class: HitClass)
    ensures
        count_class(hits, class) <= hits.len(),
    decreases hits.len(),
{
    if hits.len() > 0 {
        lemma_count_class_bound(hits.drop_last(), class);
    }
}

/// The outcome of a search: world folders, server world folders, and how
/// many hits were no world at all.
#[derive(Debug, Clone)]
pub struct PathsFound {
    /// Folders of single-player worlds.
    pub world_paths: Vec<String>,
    /// Folders of worlds that belong to a dedicated server.
    pub server_paths: Vec<String>,
    /// Hits whose folder has no `region` subdirectory.
    pub invalid_path_count: u32,
}

/// Sorts one hit.
pub fn classify_hit(hit: &SearchHit) -> (r: HitClass)
    ensures
        r == class_of(*hit),
{
    if !hit.has_region {
        HitClass::Invalid
    } else if hit.has_server_eula {
        HitClass::Server
    } else {
        HitClass::World
    }
}

/// Sorts every hit: worlds and server worlds keep the order of the hits, and
/// the hits that are no world are counted.
pub fn classify_search_hits(hits: &Vec<SearchHit>) -> (r: PathsFound)
    requires
        hits@.len() <= u32::MAX,
    ensures
        r.world_paths@.map_values(|s: String| s@) == folders_of(hits@, HitClass::World),
        r.server_paths@.map_values(|s: String| s@) == folders_of(hits@, HitClass::Server),
        r.invalid_path_count == count_class(hits@, HitClass::Invalid),
{
    let mut worlds: Vec<String> = Vec::new();
    let mut servers: Vec<String> = Vec::new();
    let mut invalid: u32 = 0;
    let mut i: usize = 0;
    while i < hits.len()
        invariant
            0 <= i <= hits@.len(),
            hits@.len() <= u32::MAX,
            worlds@.map_values(|s: String| s@) == folders_of(hits@.take(i as int), HitClass::World),
            servers@.map_values(|s: String| s@) == folders_of(
                hits@.take(i as int),
                HitClass::Server,
            ),
            invalid == count_class(hits@.take(i as int), HitClass::Invalid),
        decreases hits@.len() - i,
    {
        let ghost seen = hits@.take(i as int);
        let ghost next = hits@.take(i + 1);
        assert(next.drop_last() =~= seen);
        assert(next.last() == hits@[i as int]);
        proof {
            lemma_count_class_bound(seen, HitClass::Invalid);
        }
        let hit = &hits[i];
        match classify_hit(hit) {
            HitClass::World => {
                worlds.push(hit.folder.clone());
                assert(worlds@.map_values(|s: String| s@) =~= folders_of(
                    next,
                    HitClass::World,
                ));
            },
            HitClass::Server => {
                servers.push(hit.folder.clone());
                assert(servers@.map_values(|s: String| s@) =~= folders_of(
                    next,
                    HitClass::Server,
                ));
            },
            HitClass::Invalid => {
                invalid = invalid + 1;
            },
        }
        i = i + 1;
    }
    assert(hits@.take(hits@.len() as int) =~= hits@);
    PathsFound { world_paths: worlds, server_paths: servers, invalid_path_count: invalid }
}

/// 1 when `hit` is of class `class`, else 0.
pub open spec fn indicator(hit: SearchHit, class: HitClass) -> int {
    if class_of(hit) == class {
        1
    } else {
        0
    }
}

proof fn lemma_update_count(hits: Seq<SearchHit>, i: int, hit: SearchHit, class: HitClass)
    requires
        0 <= i < hits.len(),
    ensures
        count_class(hits.update(i, hit), class) == count_class(hits, class) - indicator(
            hits[i],
            class,
        ) + indicator(hit, class),
    decreases hits.len(),
{
    let up = hits.update(i, hit);
    if i == hits.len() - 1 {
        assert(up.drop_last() =~= hits.drop_last());
    } else {
        assert(up.drop_last() =~= hits.drop_last().update(i, hit));
        lemma_update_count(hits.drop_last(), i, hit, class);
    }
}

proof fn lemma_folders_len(hits: Seq<SearchHit>, class: HitClass)
    ensures
        folders_of(hits, class).len() == count_class(hits, class),
    decreases hits.len(),
{
    if hits.len() > 0 {
        lemma_folders_len(hits.drop_last(), class);
    }
}

proof fn lemma_folder_listed(hits: Seq<SearchHit>, i: int)
    requires
        0 <= i < hits.len(),
    ensures
        folders_of(hits, class_of(hits[i])).contains(hits[i].folder@),
    decreases hits.len(),
{
    let c = class_of(hits[i]);
    if i == hits.len() - 1 {
        assert(folders_of(hits, c).last() == hits[i].folder@);
    } else {
        lemma_folder_listed(hits.drop_last(), i);
        let prev = folders_of(hits.drop_last(), c);
        let k = choose|k: int| 0 <= k < prev.len() && prev[k] == hits[i].folder@;
        assert(folders_of(hits, c)[k] == prev[k]);
    }
}

/// A hit whose folder has a `region` subdirectory and no `eula.txt` above it
/// is listed among the worlds. With an `eula.txt` added above it, it is
/// listed among the server worlds instead: one world fewer, one server world
/// more, and as many invalid hits as before.
pub proof fn lemma_eula_reclassifies(hits: Seq<SearchHit>, i: int)
    requires
        0 <= i < hits.len(),
        hits[i].has_region,
        !hits[i].has_server_eula,
    ensures
        ({
            let server = hits.update(i, SearchHit { has_server_eula: true, ..hits[i] });
            &&& folders_of(hits, HitClass::World).contains(hits[i].folder@)
            &&& folders_of(server, HitClass::Server).contains(hits[i].folder@)
            &&& folders_of(server, HitClass::World).len() + 1 == folders_of(
                hits,
                HitClass::World,
            ).len()
            &&& folders_of(server, HitClass::Server).len() == folders_of(
                hits,
                HitClass::Server,
            ).len() + 1
            &&& count_class(server, HitClass::Invalid) == count_class(hits, HitClass::Invalid)
        }),
{
    let h = SearchHit { has_server_eula: true, ..hits[i] };
    let server = hits.update(i, h);
    lemma_folder_listed(hits, i);
    lemma_folder_listed(server, i);
    lemma_update_count(hits, i, h, HitClass::World);
    lemma_update_count(hits, i, h, HitClass::Server);
    lemma_update_count(hits, i, h, HitClass::Invalid);
    lemma_folders_len(hits, HitClass::World);
    lemma_folders_len(hits, HitClass::Server);
    lemma_folders_len(server, HitClass::World);
    lemma_folders_len(server, HitClass::Server);
}

/// Removing the `region` subdirectory of a world hit's folder makes the hit
/// invalid: one world fewer, as many server worlds, and one invalid hit more.
pub proof fn lemma_missing_region_invalidates(hits: Seq<SearchHit>, i: int)
    requires
        0 <= i < hits.len(),
        class_of(hits[i]) == HitClass::World,
    ensures
        ({
            let bare = hits.update(i, SearchHit { has_region: false, ..hits[i] });
            &&& folders_of(hits, HitClass::World).contains(hits[i].folder@)
            &&& folders_of(bare, HitClass::World).len() + 1 == folders_of(
                hits,
                HitClass::World,
            ).len()
            &&& folders_of(bare, HitClass::Server).len() == folders_of(
                hits,
                HitClass::Server,
            ).len()
            &&& count_class(bare, HitClass::Invalid) == count_class(hits, HitClass::Invalid) + 1
        }),
{
    let h = SearchHit { has_region: false, ..hits[i] };
    let bare = hits.update(i, h);
    lemma_folder_listed(hits, i);
    lemma_update_count(hits, i, h, HitClass::World);
    lemma_update_count(hits, i, h, HitClass::Server);
    lemma_update_count(hits, i, h, HitClass::Invalid);
    lemma_folders_len(hits, HitClass::World);
    lemma_folders_len(hits, HitClass::Server);
    lemma_folders_len(bare, HitClass::World);
    lemma_folders_len(bare, HitClass::Server);
}

} // verus!
