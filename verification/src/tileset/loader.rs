use vstd::prelude::*;
use vstd::string::*;

use crate::error::TesseraError;
use crate::tileset::{
    Content, Refine, Tile, any_implicit_tiling, content_label, first_implicit_tiling,
    forest_first_implicit_tiling, forest_numbered_from, forest_size, lemma_first_implicit_iff_any,
    numbered_from, same_but_ids, same_forest_but_ids, tree_size,
};
use crate::utils::{
    decimal, ends_with_ascii_lowercase, is_absolute, join, spec_ascii_lowercase, spec_decimal,
    spec_ends_with, spec_is_absolute, spec_join, spec_strip_query_and_fragment,
    strip_query_and_fragment,
};

verus! {

/// The message of the error that refuses implicit tiling.
pub open spec fn implicit_tiling_message(id: int, label: Seq<char>) -> Seq<char> {
    "Implicit tiling is not implemented; encountered on tile "@ + spec_decimal(id as nat)
        + " with content "@ + label
}

proof fn lemma_forest_size_prefix<G, T, C>(s: Seq<Tile<G, T, C>>, k: int)
    requires
        0 <= k < s.len(),
    ensures
        forest_size(s.take(k + 1)) == forest_size(s.take(k)) + tree_size(s[k]),
        forest_size(s.take(k + 1)) <= forest_size(s),
    decreases s.len(),
{
    assert(s.take(k + 1).drop_last() =~= s.take(k));
    if k + 1 < s.len() {
        assert(s.drop_last().take(k + 1) =~= s.take(k + 1));
        lemma_forest_size_prefix(s.drop_last(), k);
    } else {
        assert(s.take(k + 1) =~= s);
    }
}

proof fn lemma_same_size<G, T, C>(a: Tile<G, T, C>, b: Tile<G, T, C>)
    requires
        same_but_ids(a, b),
    ensures
        tree_size(a) == tree_size(b),
    decreases a,
{
    lemma_same_forest_size(a.children@, b.children@);
}

proof fn lemma_same_forest_size<G, T, C>(s: Seq<Tile<G, T, C>>, r: Seq<Tile<G, T, C>>)
    requires
        same_forest_but_ids(s, r),
    ensures
        forest_size(s) == forest_size(r),
    decreases s,
{
    if s.len() > 0 {
        lemma_same_forest_size(s.drop_last(), r.drop_last());
        lemma_same_size(s.last(), r.last());
    }
}

proof fn lemma_first_implicit_prefix<G, T, C>(s: Seq<Tile<G, T, C>>, k: int, start: int)
    requires
        0 <= k <= s.len(),
        forest_first_implicit_tiling(s.take(k), start) is Some,
    ensures
        forest_first_implicit_tiling(s, start) == forest_first_implicit_tiling(s.take(k), start),
    decreases s.len(),
{
    if k < s.len() {
        assert(s.drop_last().take(k) =~= s.take(k));
        lemma_first_implicit_prefix(s.drop_last(), k, start);
    } else {
        assert(s.take(k) =~= s);
    }
}

fn content_label_of<G, T, C>(tile: &Tile<G, T, C>) -> (res: String)
    ensures
        res@ == content_label(*tile),
{
    match &tile.content {
        Some(c) => c.uri.clone(),
        None => match &tile.contents {
            Some(v) => if v.len() > 0 {
                v[0].uri.clone()
            } else {
                String::from_str("<no content>")
            },
            None => String::from_str("<no content>"),
        },
    }
}

fn implicit_tiling_error(id: usize, label: &str) -> (e: TesseraError)
    ensures
        e matches TesseraError::Tileset(m) && m@ == implicit_tiling_message(id as int, label@),
{
    let mut m = String::from_str("Implicit tiling is not implemented; encountered on tile ");
    let d = decimal(id as u64);
    m.append(d.as_str());
    m.append(" with content ");
    m.append(label);
    TesseraError::Tileset(m)
}

fn assign_ids_from<G, T, C>(tile: &mut Tile<G, T, C>, current_id: &mut usize) -> (res: Result<(), TesseraError>)
    requires
        *old(current_id) + tree_size(*old(tile)) <= usize::MAX,
    ensures
        same_but_ids(*final(tile), *old(tile)),
        match first_implicit_tiling(*old(tile), *old(current_id) as int) {
            None => {
                &&& res is Ok
                &&& numbered_from(*final(tile), *old(current_id) as int)
                &&& *final(current_id) == *old(current_id) + tree_size(*old(tile))
            },
            Some((id, label)) => res matches Err(TesseraError::Tileset(m)) && m@
                == implicit_tiling_message(id, label),
        },
    decreases *old(tile),
{
    let ghost start = *current_id as int;
    tile.id = *current_id;
    if tile.has_implicit_tiling {
        let label = content_label_of(tile);
        proof {
            lemma_same_forest_reflexive(tile.children@);
        }
        return Err(implicit_tiling_error(tile.id, label.as_str()));
    }
    *current_id = *current_id + 1;
    let mut pending: Vec<Tile<G, T, C>> = Vec::new();
    std::mem::swap(&mut pending, &mut tile.children);
    let ghost orig = pending@;
    let ghost old_tile = *old(tile);
    assert(orig == old_tile.children@);
    while pending.len() > 0
        invariant
            old_tile == *old(tile),
            orig == old_tile.children@,
            start == *old(current_id) as int,
            start + tree_size(old_tile) <= usize::MAX,
            tree_size(old_tile) == 1 + forest_size(orig),
            !old_tile.has_implicit_tiling,
            tile.id == start,
            tile.geometric_error == old_tile.geometric_error,
            tile.refine == old_tile.refine,
            tile.content == old_tile.content,
            tile.contents == old_tile.contents,
            tile.has_implicit_tiling == old_tile.has_implicit_tiling,
            tile.extra == old_tile.extra,
            tile.children@.len() + pending@.len() == orig.len(),
            pending@ == orig.skip(tile.children@.len() as int),
            same_forest_but_ids(tile.children@, orig.take(tile.children@.len() as int)),
            forest_numbered_from(tile.children@, start + 1),
            forest_first_implicit_tiling(orig.take(tile.children@.len() as int), start + 1) is None,
            *current_id == start + 1 + forest_size(orig.take(tile.children@.len() as int)),
        decreases pending@.len(),
    {
        let ghost k = tile.children@.len() as int;
        let ghost done = tile.children@;
        let mut child = pending.remove(0);
        proof {
            assert(child == orig[k]);
            lemma_forest_size_prefix(orig, k);
            assert(decreases_to!(old_tile => old_tile.children));
            assert(decreases_to!(old_tile.children => old_tile.children@));
            assert(decreases_to!(old_tile.children@ => old_tile.children@[k]));
            assert(decreases_to!(old_tile => child));
        }
        let r = assign_ids_from(&mut child, current_id);
        tile.children.push(child);
        proof {
            assert(tile.children@.drop_last() =~= done);
            assert(orig.take(k + 1).drop_last() =~= orig.take(k));
            assert(orig.take(k + 1).last() == orig[k]);
            lemma_same_forest_size(done, orig.take(k));
            assert(pending@ =~= orig.skip(k + 1));
            assert(same_forest_but_ids(tile.children@, orig.take(k + 1)));
        }
        match r {
            Err(e) => {
                let ghost done2 = tile.children@;
                tile.children.append(&mut pending);
                proof {
                    lemma_first_implicit_prefix(orig, k + 1, start + 1);
                    assert(tile.children@ =~= done2 + orig.skip(k + 1));
                    lemma_same_forest_append(done2, orig, k + 1);
                }
                return Err(e);
            },
            Ok(()) => {},
        }
    }
    proof {
        assert(orig.take(orig.len() as int) =~= orig);
    }
    Ok(())
}

/// `done` agrees with the first `k` trees of `orig` but for ids; with the
/// rest of `orig` appended, it agrees with all of `orig`.
proof fn lemma_same_forest_append<G, T, C>(done: Seq<Tile<G, T, C>>, orig: Seq<Tile<G, T, C>>, k: int)
    requires
        0 <= k <= orig.len(),
        same_forest_but_ids(done, orig.take(k)),
    ensures
        same_forest_but_ids(done + orig.skip(k), orig),
    decreases orig.len() - k,
{
    if k < orig.len() {
        let next = done.push(orig[k]);
        assert(next.drop_last() =~= done);
        assert(orig.take(k + 1).drop_last() =~= orig.take(k));
        lemma_same_reflexive(orig[k]);
        lemma_same_forest_append(next, orig, k + 1);
        assert(next + orig.skip(k + 1) =~= done + orig.skip(k));
    } else {
        assert(orig.take(k) =~= orig);
        assert(done + orig.skip(k) =~= done);
    }
}

proof fn lemma_same_reflexive<G, T, C>(t: Tile<G, T, C>)
    ensures
        same_but_ids(t, t),
    decreases t,
{
    lemma_same_forest_reflexive(t.children@);
}

proof fn lemma_same_forest_reflexive<G, T, C>(s: Seq<Tile<G, T, C>>)
    ensures
        same_forest_but_ids(s, s),
    decreases s,
{
    if s.len() > 0 {
        lemma_same_forest_reflexive(s.drop_last());
        lemma_same_reflexive(s.last());
    }
}

/// Numbers the tiles of a tree in preorder from 0 (a tile before its
/// children, children in order) and refuses implicit tiling.
///
/// A tree with a tile that describes implicit tiling is refused with a
/// `Tileset` error that names the first such tile in preorder, by its
/// number and its content. Either way only ids change.
pub fn assign_tile_ids_warn_and_reject_implicit_tiling<G, T, C>(root: &mut Tile<G, T, C>) -> (res:
    Result<(), TesseraError>)
    requires
        tree_size(*old(root)) <= usize::MAX,
    ensures
        same_but_ids(*final(root), *old(root)),
        match first_implicit_tiling(*old(root), 0) {
            None => res is Ok && numbered_from(*final(root), 0),
            Some((id, label)) => res matches Err(TesseraError::Tileset(m)) && m@
                == implicit_tiling_message(id, label),
        },
        res is Ok <==> !any_implicit_tiling(*old(root)),
{
    let mut current_id: usize = 0;
    proof {
        lemma_first_implicit_iff_any(*root, 0);
    }
    assign_ids_from(root, &mut current_id)
}

/// Whether a URI names a tileset JSON file: without its query and fragment,
/// and lower-cased on its ASCII letters, it ends with `.json`.
pub open spec fn spec_is_tileset_uri(uri: Seq<char>) -> bool {
    spec_ends_with(spec_ascii_lowercase(spec_strip_query_and_fragment(uri)), ".json"@)
}

pub fn is_tileset_uri(uri: &str) -> (res: bool)
    ensures
        res == spec_is_tileset_uri(uri@),
{
    ends_with_ascii_lowercase(strip_query_and_fragment(uri), ".json")
}

/// A path written as a URI: every `\` replaced by `/`.
pub open spec fn spec_path_to_uri(path: Seq<char>) -> Seq<char> {
    Seq::new(path.len(), |i: int| if path[i] == '\\' { '/' } else { path[i] })
}

pub fn path_to_uri(path: &str) -> (res: String)
    ensures
        res@ == spec_path_to_uri(path@),
{
    let n = path.unicode_len();
    let mut out = String::new();
    let mut i: usize = 0;
    proof {
        reveal_strlit("/");
    }
    while i < n
        invariant
            n == path@.len(),
            i <= n,
            out@ =~= spec_path_to_uri(path@).take(i as int),
            "/"@ == seq!['/'],
        decreases n - i,
    {
        if path.get_char(i) == '\\' {
            out.append("/");
        } else {
            out.append(path.substring_char(i, i + 1));
        }
        assert(out@ =~= spec_path_to_uri(path@).take(i as int + 1));
        i = i + 1;
    }
    assert(spec_path_to_uri(path@).take(n as int) =~= spec_path_to_uri(path@));
    out
}

/// The path that leads from the directory `base` to `path`, when there is
/// one, as `pathdiff::diff_paths` computes it with the path rules of the
/// target the library is built for.
pub uninterp spec fn spec_diff_paths(path: Seq<char>, base: Seq<char>) -> Option<Seq<char>>;

/// `pathdiff::diff_paths`: its result is `spec_diff_paths` of the two
/// paths. Nothing more is claimed of it here.
#[verifier::external_body]
fn diff_paths(path: &str, base: &str) -> (res: Option<String>)
    ensures
        match res {
            Some(r) => spec_diff_paths(path@, base@) == Some(r@),
            None => spec_diff_paths(path@, base@) is None,
        },
{
    pathdiff::diff_paths(path, base).map(|p| p.to_string_lossy().into_owned())
}

/// What follows the path part of a URI: its query and fragment.
pub open spec fn spec_uri_suffix(uri: Seq<char>) -> Seq<char> {
    uri.skip(spec_strip_query_and_fragment(uri).len() as int)
}

/// The URI of a rebased path: the path relative to the new base when one was
/// found, else the absolute path, written as a URI and followed by the
/// original query and fragment.
pub open spec fn spec_rebased_uri(absolute_path: Seq<char>, relative: Option<Seq<char>>, suffix: Seq<char>) -> Seq<char> {
    spec_path_to_uri(
        match relative {
            Some(r) => r,
            None => absolute_path,
        },
    ) + suffix
}

/// Writes a rebased content URI from the path relative to the new base (or
/// none, when no relative path exists).
pub fn rebased_uri(absolute_path: &str, relative: Option<String>, suffix: &str) -> (res: String)
    ensures
        res@ == spec_rebased_uri(
            absolute_path@,
            match relative {
                Some(r) => Some(r@),
                None => None,
            },
            suffix@,
        ),
{
    let mut out = match relative {
        Some(r) => path_to_uri(r.as_str()),
        None => path_to_uri(absolute_path),
    };
    out.append(suffix);
    out
}

/// `old_uri` rebased from `from_base_dir` to `to_base_dir`: the same URI
/// when its path is absolute; otherwise the URI of the path from
/// `to_base_dir` to the joined `from_base_dir/path` (or of that joined path
/// itself, when no such path exists), followed by the original query and
/// fragment.
pub open spec fn spec_rebase_uri(old_uri: Seq<char>, from_base_dir: Seq<char>, to_base_dir: Seq<char>) -> Seq<char> {
    let path = spec_strip_query_and_fragment(old_uri);
    if spec_is_absolute(path) {
        old_uri
    } else {
        let joined = spec_join(from_base_dir, path);
        spec_rebased_uri(joined, spec_diff_paths(joined, to_base_dir), spec_uri_suffix(old_uri))
    }
}

/// Rebases a content URI that is relative to `from_base_dir` so that it is
/// relative to `to_base_dir`, keeping its query and fragment. An absolute
/// URI is kept as it is.
pub fn rebase_uri(uri: &str, from_base_dir: &str, to_base_dir: &str) -> (res: String)
    ensures
        res@ == spec_rebase_uri(uri@, from_base_dir@, to_base_dir@),
{
    let trimmed = strip_query_and_fragment(uri);
    let n = uri.unicode_len();
    let t = trimmed.unicode_len();
    let suffix = uri.substring_char(t, n);
    if is_absolute(trimmed) {
        return uri.to_owned();
    }
    let absolute_path = join(from_base_dir, trimmed);
    let relative = diff_paths(absolute_path.as_str(), to_base_dir);
    let ghost rel = match &relative {
        Some(r) => Some(r@),
        None => None,
    };
    let res = rebased_uri(absolute_path.as_str(), relative, suffix);
    assert(suffix@ =~= spec_uri_suffix(uri@));
    assert(res@ == spec_rebased_uri(absolute_path@, rel, suffix@));
    res
}

/// Moves an external tileset's root into the tile that referenced it: the
/// tile takes the root's content, contents and children (the root's children
/// first, then the tile's own), and the root's refinement when it has one.
/// The tile keeps its id, geometric error and other properties, which locate
/// the external tileset in the parent.
pub fn merge_external_root_into_tile<G, T, C>(tile: &mut Tile<G, T, C>, external_root: Tile<G, T, C>)
    ensures
        final(tile).content == external_root.content,
        final(tile).contents == external_root.contents,
        final(tile).children@ == external_root.children@ + old(tile).children@,
        final(tile).refine == (if external_root.refine is Some {
            external_root.refine
        } else {
            old(tile).refine
        }),
        final(tile).id == old(tile).id,
        final(tile).geometric_error == old(tile).geometric_error,
        final(tile).has_implicit_tiling == old(tile).has_implicit_tiling,
        final(tile).extra == old(tile).extra,
{
    let mut existing_children: Vec<Tile<G, T, C>> = Vec::new();
    std::mem::swap(&mut existing_children, &mut tile.children);
    let Tile { content, contents, children, refine, .. } = external_root;
    tile.content = content;
    tile.contents = contents;
    tile.children = children;
    tile.children.append(&mut existing_children);
    if refine.is_some() {
        tile.refine = refine;
    }
}

/// The contents of a tile that stay with it once external tilesets are
/// inlined: those that do not name a tileset, in order.
pub open spec fn kept_contents<C>(s: Seq<Content<C>>) -> Seq<Content<C>>
    decreases s.len(),
{
    if s.len() == 0 {
        Seq::empty()
    } else if spec_is_tileset_uri(s.last().uri@) {
        kept_contents(s.drop_last())
    } else {
        kept_contents(s.drop_last()).push(s.last())
    }
}

/// The URIs of a tile's contents that name external tilesets, in order.
pub open spec fn external_tileset_uris<C>(s: Seq<Content<C>>) -> Seq<Seq<char>>
    decreases s.len(),
{
    if s.len() == 0 {
        Seq::empty()
    } else if spec_is_tileset_uri(s.last().uri@) {
        external_tileset_uris(s.drop_last()).push(s.last().uri@)
    } else {
        external_tileset_uris(s.drop_last())
    }
}

/// Splitting a tile's contents loses none and duplicates none: each content
/// is either kept or named among the external tilesets to inline.
pub proof fn lemma_split_contents_partition<C>(s: Seq<Content<C>>)
    ensures
        kept_contents(s).len() + external_tileset_uris(s).len() == s.len(),
    decreases s.len(),
{
    if s.len() > 0 {
        lemma_split_contents_partition(s.drop_last());
    }
}

/// Splits a tile's contents into the ones that name external tilesets, whose
/// URIs are returned in order for inlining, and the others, which are kept in
/// order with each URI rebased from `current_base_dir` to `root_base_dir`.
/// The kept contents come back as `None` when there are none.
pub fn split_contents<C>(contents: Vec<Content<C>>, current_base_dir: &str, root_base_dir: &str) -> (res: (
    Option<Vec<Content<C>>>,
    Vec<String>,
))
    ensures
        res.1@.len() == external_tileset_uris(contents@).len(),
        forall|i: int|
            0 <= i < res.1@.len() ==> #[trigger] res.1@[i]@ == external_tileset_uris(contents@)[i],
        kept_contents(contents@).len() == 0 ==> res.0 is None,
        kept_contents(contents@).len() > 0 ==> (res.0 matches Some(kept) && kept@.len()
            == kept_contents(contents@).len() && forall|i: int|
            0 <= i < kept@.len() ==> {
                &&& #[trigger] kept@[i].extra == kept_contents(contents@)[i].extra
                &&& kept@[i].uri@ == spec_rebase_uri(
                    kept_contents(contents@)[i].uri@,
                    current_base_dir@,
                    root_base_dir@,
                )
            }),
{
    let mut pending = contents;
    let total = pending.len();
    let ghost orig = pending@;
    let mut kept: Vec<Content<C>> = Vec::new();
    let mut externals: Vec<String> = Vec::new();
    let mut k: usize = 0;
    while pending.len() > 0
        invariant
            orig.len() <= usize::MAX,
            k + pending@.len() == orig.len(),
            pending@ == orig.skip(k as int),
            externals@.len() == external_tileset_uris(orig.take(k as int)).len(),
            forall|i: int|
                0 <= i < externals@.len() ==> #[trigger] externals@[i]@ == external_tileset_uris(
                    orig.take(k as int),
                )[i],
            kept@.len() == kept_contents(orig.take(k as int)).len(),
            forall|i: int|
                0 <= i < kept@.len() ==> {
                    &&& #[trigger] kept@[i].extra == kept_contents(orig.take(k as int))[i].extra
                    &&& kept@[i].uri@ == spec_rebase_uri(
                        kept_contents(orig.take(k as int))[i].uri@,
                        current_base_dir@,
                        root_base_dir@,
                    )
                },
        decreases pending@.len(),
    {
        let mut content = pending.remove(0);
        proof {
            assert(content == orig[k as int]);
            assert(orig.take(k as int + 1).drop_last() =~= orig.take(k as int));
            assert(orig.take(k as int + 1).last() == orig[k as int]);
            assert(pending@ =~= orig.skip(k as int + 1));
        }
        if is_tileset_uri(content.uri.as_str()) {
            externals.push(content.uri);
        } else {
            let rebased = rebase_uri(content.uri.as_str(), current_base_dir, root_base_dir);
            content.uri = rebased;
            kept.push(content);
        }
        k = k + 1;
    }
    proof {
        assert(orig.take(k as int) =~= orig);
    }
    if kept.len() > 0 {
        (Some(kept), externals)
    } else {
        (None, externals)
    }
}

} // verus!
