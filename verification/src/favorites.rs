//! The favorites list: membership, addition, removal and reordering.
//! Loading the list from disk and storing it again is the caller's
//! business; every rule about its contents is decided and proved here.

use vstd::prelude::*;
use vstd::string::StringExecFns;

use crate::strutil::str_eq;

verus! {

/// One favorite: a file, its display name, and when it was added.
#[derive(Debug, Clone)]
pub struct FavoriteItem {
    /// Absolute path of the file.
    pub path: String,
    /// Display name, usually the file name.
    pub name: String,
    /// When the favorite was added, as local time text.
    pub added_at: String,
}

/// The whole favorites list, in display order.
#[derive(Debug, Clone)]
pub struct FavoritesData {
    pub favorites: Vec<FavoriteItem>,
}

impl Default for FavoritesData {
    /// An empty list.
    fn default() -> (r: Self)
        ensures
            r.favorites@.len() == 0,
    {
        FavoritesData { favorites: Vec::new() }
    }
}

/// Some favorite carries this path.
pub open spec fn spec_has_path(s: Seq<FavoriteItem>, p: Seq<char>) -> bool {
    exists|i: int| 0 <= i < s.len() && (#[trigger] s[i]).path@ == p
}

/// The test a removal applies: keep the favorites whose path differs.
pub open spec fn keeps_other(p: Seq<char>) -> spec_fn(FavoriteItem) -> bool {
    |f: FavoriteItem| f.path@ != p
}

/// Add a favorite.  A path already on the list is rejected and the list
/// stays as it is; otherwise the new favorite goes to the end and is
/// returned.
pub fn add_favorite_entry(
    data: &mut FavoritesData,
    path: String,
    name: String,
    added_at: String,
) -> (r: Result<FavoriteItem, String>)
    ensures
        spec_has_path(old(data).favorites@, path@) ==> {
            &&& final(data).favorites == old(data).favorites
            &&& (r matches Err(m) && m@ == "Already in favorites: "@ + name@)
        },
        !spec_has_path(old(data).favorites@, path@) ==> {
            &&& final(data).favorites@.len() == old(data).favorites@.len() + 1
            &&& forall|j: int|
                0 <= j < old(data).favorites@.len() ==> final(data).favorites@[j] == old(
                    data,
                ).favorites@[j]
            &&& final(data).favorites@.last().path@ == path@
            &&& final(data).favorites@.last().name@ == name@
            &&& final(data).favorites@.last().added_at@ == added_at@
            &&& (r matches Ok(item) && item.path@ == path@ && item.name@ == name@
                && item.added_at@ == added_at@)
        },
{
    let n = data.favorites.len();
    let mut i: usize = 0;
    while i < n
        invariant
            n == data.favorites@.len(),
            *data == *old(data),
            0 <= i <= n,
            forall|j: int| 0 <= j < i ==> (#[trigger] data.favorites@[j]).path@ != path@,
        decreases n - i,
    {
        if str_eq(data.favorites[i].path.as_str(), path.as_str()) {
            proof {
                assert(spec_has_path(data.favorites@, path@));
            }
            let mut m = String::from_str("Already in favorites: ");
            m.append(name.as_str());
            return Err(m);
        }
        i = i + 1;
    }
    proof {
        if spec_has_path(data.favorites@, path@) {
            let w = choose|w: int|
                0 <= w < data.favorites@.len() && (#[trigger] data.favorites@[w]).path@ == path@;
            assert(data.favorites@[w].path@ != path@);
        }
    }
    let item = FavoriteItem { path, name, added_at };
    let copy = FavoriteItem {
        path: item.path.clone(),
        name: item.name.clone(),
        added_at: item.added_at.clone(),
    };
    data.favorites.push(copy);
    Ok(item)
}

/// Remove every favorite with this path.  When none carries it, the
/// list stays as it is and the removal is rejected.
pub fn remove_favorite_entry(data: &mut FavoritesData, path: &str) -> (r: Result<(), String>)
    ensures
        spec_has_path(old(data).favorites@, path@) ==> {
            &&& r is Ok
            &&& final(data).favorites@ == old(data).favorites@.filter(keeps_other(path@))
        },
        !spec_has_path(old(data).favorites@, path@) ==> {
            &&& final(data).favorites@ == old(data).favorites@
            &&& (r matches Err(m) && m@ == "Not found in favorites: "@ + path@)
        },
{
    let ghost orig = old(data).favorites@;
    let mut source: Vec<FavoriteItem> = Vec::new();
    core::mem::swap(&mut source, &mut data.favorites);
    let n = source.len();
    let mut kept: Vec<FavoriteItem> = Vec::new();
    let mut removed_any = false;
    let mut i: usize = 0;
    while i < n
        invariant
            n == orig.len(),
            0 <= i <= n,
            source@ == orig.subrange(i as int, n as int),
            kept@ == orig.subrange(0, i as int).filter(keeps_other(path@)),
            removed_any == spec_has_path(orig.subrange(0, i as int), path@),
        decreases n - i,
    {
        let ghost prefix = orig.subrange(0, i as int);
        let ghost prefix1 = orig.subrange(0, i as int + 1);
        proof {
            reveal(Seq::filter);
            assert(prefix1.drop_last() =~= prefix);
            assert(prefix1.last() == orig[i as int]);
            assert(source@[0] == orig[i as int]);
        }
        let ghost source0 = source@;
        let f = source.remove(0);
        proof {
            assert(source@ =~= orig.subrange(i as int + 1, n as int)) by {
                assert(source@ =~= source0.remove(0));
            }
        }
        if str_eq(f.path.as_str(), path) {
            removed_any = true;
            proof {
                assert(prefix1[i as int].path@ == path@);
                assert(spec_has_path(prefix1, path@));
                assert(prefix1.filter(keeps_other(path@)) == prefix.filter(keeps_other(path@)));
            }
        } else {
            kept.push(f);
            proof {
                assert((keeps_other(path@))(prefix1.last()));
                assert(prefix1.filter(keeps_other(path@)) == prefix.filter(
                    keeps_other(path@),
                ).push(prefix1.last()));
                if spec_has_path(prefix1, path@) {
                    let w = choose|w: int|
                        0 <= w < prefix1.len() && (#[trigger] prefix1[w]).path@ == path@;
                    assert(prefix[w].path@ == path@);
                    assert(spec_has_path(prefix, path@));
                }
                if spec_has_path(prefix, path@) {
                    let w = choose|w: int|
                        0 <= w < prefix.len() && (#[trigger] prefix[w]).path@ == path@;
                    assert(prefix1[w].path@ == path@);
                }
            }
        }
        i = i + 1;
    }
    proof {
        assert(orig.subrange(0, n as int) =~= orig);
    }
    if !removed_any {
        proof {
            assert forall|w: int| 0 <= w < orig.len() implies (keeps_other(path@))(
                #[trigger] orig[w],
            ) by {
                if orig[w].path@ == path@ {
                    assert(spec_has_path(orig, path@));
                }
            }
            lemma_filter_all(orig, keeps_other(path@));
        }
        data.favorites = kept;
        let mut m = String::from_str("Not found in favorites: ");
        m.append(path);
        return Err(m);
    }
    data.favorites = kept;
    Ok(())
}

/// A filter whose test every element passes keeps the whole sequence.
proof fn lemma_filter_all(s: Seq<FavoriteItem>, pred: spec_fn(FavoriteItem) -> bool)
    requires
        forall|i: int| 0 <= i < s.len() ==> pred(#[trigger] s[i]),
    ensures
        s.filter(pred) =~= s,
    decreases s.len(),
{
    reveal(Seq::filter);
    if s.len() > 0 {
        assert forall|i: int| 0 <= i < s.drop_last().len() implies pred(
            #[trigger] s.drop_last()[i],
        ) by {
            assert(s.drop_last()[i] == s[i]);
        }
        lemma_filter_all(s.drop_last(), pred);
        assert(pred(s.last()));
        assert(s.filter(pred) == s.drop_last().filter(pred).push(s.last()));
        assert(s.drop_last().push(s.last()) =~= s);
    }
}

impl FavoriteItem {
    /// A field-by-field copy.
    pub fn clone_item(&self) -> (r: FavoriteItem)
        ensures
            r.path@ == self.path@,
            r.name@ == self.name@,
            r.added_at@ == self.added_at@,
    {
        FavoriteItem {
            path: self.path.clone(),
            name: self.name.clone(),
            added_at: self.added_at.clone(),
        }
    }
}

/// The index of the first favorite carrying this path, or the length
/// when none does.
pub open spec fn first_path_index(s: Seq<FavoriteItem>, p: Seq<char>) -> int
    decreases s.len(),
{
    if s.len() == 0 {
        0
    } else if s[0].path@ == p {
        0
    } else {
        1 + first_path_index(s.drop_first(), p)
    }
}

/// Reordering: the favorites whose paths appear in `ps` are pulled to
/// the front in that order (first occurrence each); everything left
/// keeps its old relative order at the end.
pub open spec fn spec_reorder(remaining: Seq<FavoriteItem>, ps: Seq<Seq<char>>) -> Seq<
    FavoriteItem,
>
    decreases ps.len(),
{
    if ps.len() == 0 {
        remaining
    } else {
        let i = first_path_index(remaining, ps[0]);
        if i < remaining.len() {
            seq![remaining[i]] + spec_reorder(remaining.remove(i), ps.drop_first())
        } else {
            spec_reorder(remaining, ps.drop_first())
        }
    }
}

/// The first index carrying the path is the one with nothing matching
/// before it.
proof fn lemma_first_path_index_char(s: Seq<FavoriteItem>, p: Seq<char>, k: int)
    requires
        0 <= k <= s.len(),
        forall|j: int| 0 <= j < k ==> (#[trigger] s[j]).path@ != p,
        k < s.len() ==> s[k].path@ == p,
    ensures
        first_path_index(s, p) == if k < s.len() {
            k
        } else {
            s.len() as int
        },
    decreases k,
{
    if s.len() == 0 {
    } else if k == 0 {
    } else {
        assert(s[0].path@ != p);
        lemma_first_path_index_char(s.drop_first(), p, k - 1);
        assert forall|j: int| 0 <= j < k - 1 implies (#[trigger] s.drop_first()[j]).path@
            != p by {
            assert(s.drop_first()[j] == s[j + 1]);
        }
    }
}

/// Reorder the favorites along the given path order.
pub fn reorder_favorite_entries(data: &mut FavoritesData, paths: &Vec<String>)
    ensures
        final(data).favorites@ == spec_reorder(
            old(data).favorites@,
            paths@.map_values(|p: String| p@),
        ),
{
    let ghost ps = paths@.map_values(|p: String| p@);
    let ghost initial = data.favorites@;
    let mut reordered: Vec<FavoriteItem> = Vec::new();
    let np = paths.len();
    proof {
        assert(ps.skip(0) =~= ps);
        assert(reordered@ + spec_reorder(data.favorites@, ps.skip(0)) =~= spec_reorder(
            initial,
            ps,
        ));
    }
    let mut k: usize = 0;
    while k < np
        invariant
            np == paths@.len(),
            ps == paths@.map_values(|p: String| p@),
            0 <= k <= np,
            spec_reorder(initial, ps) == reordered@ + spec_reorder(
                data.favorites@,
                ps.skip(k as int),
            ),
        decreases np - k,
    {
        let ghost rem = data.favorites@;
        let ghost tail = ps.skip(k as int);
        proof {
            assert(tail[0] == ps[k as int]);
            assert(tail.drop_first() =~= ps.skip(k as int + 1));
        }
        let p = &paths[k];
        let n = data.favorites.len();
        let mut i: usize = 0;
        let mut pos: usize = n;
        while i < n && pos == n
            invariant
                n == data.favorites@.len(),
                data.favorites@ == rem,
                0 <= i <= n,
                pos <= n,
                p@ == ps[k as int],
                0 <= (k as int) < ps.len(),
                pos == n ==> forall|j: int| 0 <= j < i ==> (#[trigger] rem[j]).path@ != p@,
                pos < n ==> rem[pos as int].path@ == p@ && (forall|j: int|
                    0 <= j < pos ==> (#[trigger] rem[j]).path@ != p@),
            decreases n - i,
        {
            if str_eq(data.favorites[i].path.as_str(), p.as_str()) {
                pos = i;
            }
            i = i + 1;
        }
        if pos < n {
            proof {
                assert forall|j: int| 0 <= j < pos implies (#[trigger] rem[j]).path@ != ps[k as int] by {
                    assert(rem[j].path@ != p@);
                }
                lemma_first_path_index_char(rem, ps[k as int], pos as int);
                assert(first_path_index(rem, tail[0]) == pos as int);
            }
            let item = data.favorites.remove(pos);
            let ghost before = reordered@;
            reordered.push(item);
            proof {
                assert(reordered@ =~= before + seq![rem[pos as int]]);
                assert(before + (seq![rem[pos as int]] + spec_reorder(
                    rem.remove(pos as int),
                    tail.drop_first(),
                )) =~= (before + seq![rem[pos as int]]) + spec_reorder(
                    rem.remove(pos as int),
                    tail.drop_first(),
                ));
            }
        } else {
            proof {
                assert forall|j: int| 0 <= j < n implies (#[trigger] rem[j]).path@ != ps[k as int] by {
                    assert(rem[j].path@ != p@);
                }
                lemma_first_path_index_char(rem, ps[k as int], n as int);
                assert(first_path_index(rem, tail[0]) == rem.len() as int);
            }
        }
        k = k + 1;
    }
    proof {
        assert(ps.skip(np as int) =~= Seq::<Seq<char>>::empty());
        assert(spec_reorder(data.favorites@, ps.skip(np as int)) == data.favorites@);
    }
    let mut rest = Vec::new();
    core::mem::swap(&mut rest, &mut data.favorites);
    let mut reordered = reordered;
    reordered.append(&mut rest);
    data.favorites = reordered;
}

} // verus!
