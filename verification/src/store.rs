//! What the local database holds beyond SQL: favorite tags grouped under
//! their parents, and the choice of schema migrations to run.
use vstd::prelude::*;
use crate::text::{chars_eq, chars_of, copy_string, parse_i32, parse_i32_spec, slice_chars};

verus! {

/// A favorite tag; a child tag names its parent.
#[derive(Debug, Clone)]
pub struct FavoriteTag {
    pub id: i64,
    pub tag: String,
    pub tag_type: String,
    pub parent_id: Option<i64>,
}

/// A parent tag with its child tags.
#[derive(Debug, Clone)]
pub struct FavoriteTagGroup {
    pub parent: FavoriteTag,
    pub children: Vec<FavoriteTag>,
}

/// The mathematical value of a [`FavoriteTag`].
pub struct FavoriteView {
    pub id: i64,
    pub tag: Seq<char>,
    pub tag_type: Seq<char>,
    pub parent_id: Option<i64>,
}

impl View for FavoriteTag {
    type V = FavoriteView;

    open spec fn view(&self) -> FavoriteView {
        FavoriteView { id: self.id, tag: self.tag@, tag_type: self.tag_type@, parent_id: self.parent_id }
    }
}

/// The views of a list of favorite tags.
pub open spec fn favorites_view(v: Seq<FavoriteTag>) -> Seq<FavoriteView> {
    v.map_values(|t: FavoriteTag| t@)
}

/// The tags of `tags` whose parent is `parent`, in order (`None`: the
/// top-level tags).
pub open spec fn tags_under(tags: Seq<FavoriteView>, parent: Option<i64>) -> Seq<FavoriteView>
    decreases tags.len(),
{
    if tags.len() == 0 {
        Seq::empty()
    } else {
        tags_under(tags.drop_last(), parent) + if tags.last().parent_id == parent {
            seq![tags.last()]
        } else {
            Seq::empty()
        }
    }
}

/// The groups of a list of tags: each top-level tag, in order, with the
/// tags whose parent it is, in order.
pub open spec fn tag_groups(tags: Seq<FavoriteView>) -> Seq<(FavoriteView, Seq<FavoriteView>)> {
    tags_under(tags, None).map_values(|p: FavoriteView| (p, tags_under(tags, Some(p.id))))
}

impl FavoriteTag {
    /// A copy of the tag.
    pub fn copy(&self) -> (res: Self)
        ensures
            res@ == self@,
    {
        FavoriteTag {
            id: self.id,
            tag: copy_string(&self.tag),
            tag_type: copy_string(&self.tag_type),
            parent_id: self.parent_id,
        }
    }
}

/// The tags of `tags` whose parent is `parent`, in order.
pub fn tags_with_parent(tags: &Vec<FavoriteTag>, parent: Option<i64>) -> (res: Vec<FavoriteTag>)
    ensures
        favorites_view(res@) == tags_under(favorites_view(tags@), parent),
{
    let ghost tv = favorites_view(tags@);
    let mut res: Vec<FavoriteTag> = Vec::new();
    let mut j: usize = 0;
    while j < tags.len()
        invariant
            j <= tags.len(),
            tv == favorites_view(tags@),
            favorites_view(res@) == tags_under(tv.take(j as int), parent),
        decreases tags.len() - j,
    {
        assert(tv.take(j + 1).drop_last() =~= tv.take(j as int));
        assert(tv[j as int] == tags@[j as int]@);
        let ghost before = res@;
        if tags[j].parent_id == parent {
            let c = tags[j].copy();
            res.push(c);
            assert(favorites_view(res@) =~= favorites_view(before) + seq![c@]);
        } else {
            assert(favorites_view(res@) =~= favorites_view(before) + Seq::<FavoriteView>::empty());
        }
        j += 1;
    }
    assert(tv.take(j as int) =~= tv);
    res
}

/// The views of a list of groups.
pub open spec fn groups_view(v: Seq<FavoriteTagGroup>) -> Seq<(FavoriteView, Seq<FavoriteView>)> {
    v.map_values(|g: FavoriteTagGroup| (g.parent@, favorites_view(g.children@)))
}

/// Groups tags, listed in creation order, under their top-level tags.
pub fn group_tags(tags: &Vec<FavoriteTag>) -> (res: Vec<FavoriteTagGroup>)
    ensures
        groups_view(res@) == tag_groups(favorites_view(tags@)),
{
    let ghost tv = favorites_view(tags@);
    let parents = tags_with_parent(tags, None);
    let ghost pv = favorites_view(parents@);
    let mut res: Vec<FavoriteTagGroup> = Vec::new();
    let mut j: usize = 0;
    while j < parents.len()
        invariant
            j <= parents.len(),
            tv == favorites_view(tags@),
            pv == favorites_view(parents@),
            pv == tags_under(tv, None),
            groups_view(res@) == pv.take(j as int).map_values(
                |p: FavoriteView| (p, tags_under(tv, Some(p.id))),
            ),
        decreases parents.len() - j,
    {
        let parent = parents[j].copy();
        let children = tags_with_parent(tags, Some(parents[j].id));
        assert(pv[j as int] == parents@[j as int]@);
        let ghost before = res@;
        let ghost g = (parent@, favorites_view(children@));
        assert(g == (pv[j as int], tags_under(tv, Some(pv[j as int].id))));
        res.push(FavoriteTagGroup { parent, children });
        assert(groups_view(res@) =~= groups_view(before).push(g));
        assert(groups_view(res@) =~= pv.take(j + 1).map_values(
            |p: FavoriteView| (p, tags_under(tv, Some(p.id))),
        ));
        j += 1;
    }
    assert(pv.take(j as int) =~= pv);
    res
}

// ---------------------------------------------------------------------------
// Schema migrations
// ---------------------------------------------------------------------------

/// The version of a migration named like `001_init`: its first three
/// characters as a number, 0 when they are not one.
pub open spec fn migration_version_spec(name: Seq<char>) -> i32 {
    match parse_i32_spec(name.take(3)) {
        Some(v) => v,
        None => 0,
    }
}

/// The version of a migration from its name.
pub fn migration_version(name: &str) -> (res: i32)
    requires
        name@.len() >= 3,
    ensures
        res == migration_version_spec(name@),
{
    let n = chars_of(name);
    let head = slice_chars(&n, 0, 3);
    assert(n@.subrange(0, 3) =~= n@.take(3));
    match parse_i32(&head) {
        Some(v) => v,
        None => 0,
    }
}

/// Whether a migration is run: it is newer than the current version and has
/// SQL to run.
pub open spec fn migration_runs(current: i32, name: Seq<char>, sql: Seq<char>) -> bool {
    migration_version_spec(name) > current && sql.len() > 0
}

/// Whether the migration `name` with `sql` runs at schema version `current`.
pub fn should_run_migration(current: i32, name: &str, sql: &str) -> (res: bool)
    requires
        name@.len() >= 3,
    ensures
        res == migration_runs(current, name@, sql@),
{
    migration_version(name) > current && !sql.is_empty()
}

/// Whether storing progress with this status records a completion time.
pub fn records_completion(status: &str) -> (res: bool)
    ensures
        res == (status@ == "completed"@),
{
    chars_eq(&chars_of(status), &chars_of("completed"))
}

} // verus!
