use vstd::prelude::*;
use vstd::string::StringExecFns;

use crate::order::has_key;
use crate::order::is_sorted_by;
use crate::order::precedes;
use crate::order::sort_by_keys;
use crate::order::sorted_by;
use crate::order::sorted_by_is_sorted;
use crate::order::sorted_by_is_stable;
use crate::order::sorted_by_keeps_a_sorted_list;
use crate::order::sorted_by_keeps_the_texts;
use crate::order::texts_have_one_order;
use crate::order::Key;
use crate::text::chars_of;
use crate::text::texts;

verus! {

/// The position of the first `#` of a path at or behind `from`, or the
/// length of the path where there is none.
pub open spec fn next_mark(path: Seq<char>, from: int) -> int
    decreases path.len() - from,
{
    if from >= path.len() {
        path.len() as int
    } else if path[from] == '#' {
        from
    } else {
        next_mark(path, from + 1)
    }
}

/// The tag an asset is layered by: what stands between the first `#` of its
/// path and the next one, or the end of the path where no other follows. A
/// path without `#` has the empty tag.
pub open spec fn tag(path: Seq<char>) -> Seq<char> {
    let opening = next_mark(path, 0);
    if opening >= path.len() {
        Seq::empty()
    } else {
        path.subrange(opening + 1, next_mark(path, opening + 1))
    }
}

/// Orders assets by their tags.
pub open spec fn by_tag() -> Key {
    |path: Seq<char>| tag(path)
}

/// Orders names by themselves.
pub open spec fn by_name() -> Key {
    |name: Seq<char>| name
}

/// A directory's path and the name of an entry, as the path of the entry.
pub open spec fn entry_path(directory: Seq<char>, name: Seq<char>) -> Seq<char> {
    directory + seq!['/'] + name
}

/// The paths of the entries of a directory, in the order of the names.
pub open spec fn entry_paths(directory: Seq<char>, names: Seq<Seq<char>>) -> Seq<Seq<char>> {
    Seq::new(names.len(), |i: int| entry_path(directory, names[i]))
}

/// The assets of a category: the paths of the files found in its directory,
/// in the lexical order of their names. A category whose directory could
/// not be listed has none.
pub open spec fn assets_of(directory: Seq<char>, files: Option<Seq<Seq<char>>>) -> Seq<Seq<char>> {
    match files {
        Some(names) => entry_paths(directory, sorted_by(by_name(), names)),
        None => Seq::empty(),
    }
}

/// What was found of one category of a set: the name of its directory and
/// the names of the files in it, in whatever order the directory gave them,
/// or `None` where the directory could not be listed.
pub struct CategoryListing {
    pub name: String,
    pub files: Option<Vec<String>>,
}

/// What a `CategoryListing` holds.
pub struct Listed {
    pub name: Seq<char>,
    pub files: Option<Seq<Seq<char>>>,
}

impl View for CategoryListing {
    type V = Listed;

    open spec fn view(&self) -> Listed {
        Listed {
            name: self.name@,
            files: match self.files {
                Some(names) => Some(texts(names@)),
                None => None,
            },
        }
    }
}

/// The assets of each category of a catalog.
pub open spec fn listings(categories: Seq<Vec<String>>) -> Seq<Seq<Seq<char>>> {
    Seq::new(categories.len(), |i: int| texts(categories[i]@))
}

/// What each listing of a list holds.
pub open spec fn listed(listing: Seq<CategoryListing>) -> Seq<Listed> {
    Seq::new(listing.len(), |i: int| listing[i]@)
}

/// The names of the categories of a listing, in its order.
pub open spec fn names_of(listing: Seq<Listed>) -> Seq<Seq<char>> {
    Seq::new(listing.len(), |i: int| listing[i].name)
}

/// The position of the first category of that name at or behind `from`, or
/// the length of the listing where there is none.
pub open spec fn first_named(listing: Seq<Listed>, name: Seq<char>, from: int) -> int
    decreases listing.len() - from,
{
    if from >= listing.len() {
        listing.len() as int
    } else if listing[from].name == name {
        from
    } else {
        first_named(listing, name, from + 1)
    }
}

/// The files listed for the category of that name.
pub open spec fn files_named(listing: Seq<Listed>, name: Seq<char>) -> Option<Seq<Seq<char>>> {
    let at = first_named(listing, name, 0);
    if at < listing.len() {
        listing[at].files
    } else {
        None
    }
}

/// The catalog of a set, made of what was found in its directory: the
/// categories in the lexical order of their names, each with its assets.
pub open spec fn catalog(directory: Seq<char>, listing: Seq<Listed>) -> Seq<Seq<Seq<char>>> {
    let names = sorted_by(by_name(), names_of(listing));
    Seq::new(
        names.len(),
        |i: int| assets_of(entry_path(directory, names[i]), files_named(listing, names[i])),
    )
}

/// Finds the first `#` at or behind `from`.
fn find_mark(path: &Vec<char>, from: usize) -> (at: usize)
    requires
        from <= path.len(),
    ensures
        at == next_mark(path@, from as int),
        from <= at <= path.len(),
{
    let mut at: usize = from;
    while at < path.len() && path[at] != '#'
        invariant
            from <= at <= path.len(),
            next_mark(path@, from as int) == next_mark(path@, at as int),
        decreases path.len() - at,
    {
        at += 1;
    }
    at
}

/// Reads the tag of an asset's path.
pub fn tag_of(path: &str) -> (found: Vec<char>)
    ensures
        found@ == tag(path@),
{
    let chars = chars_of(path);
    let mut found: Vec<char> = Vec::new();
    let opening = find_mark(&chars, 0);
    if opening >= chars.len() {
        return found;
    }
    let closing = find_mark(&chars, opening + 1);
    let mut i: usize = opening + 1;
    while i < closing
        invariant
            opening + 1 <= i <= closing <= chars.len(),
            found@ == chars@.subrange(opening + 1, i as int),
        decreases closing - i,
    {
        found.push(chars[i]);
        i += 1;
        assert(found@ =~= chars@.subrange(opening + 1, i as int));
    }
    found
}

/// Puts chosen assets into the order they are layered in: by tag, assets of
/// one tag in the order they were chosen in.
pub fn order_by_tag(files: &Vec<String>) -> (ordered: Vec<String>)
    ensures
        texts(ordered@) == sorted_by(by_tag(), texts(files@)),
{
    let mut tags: Vec<Vec<char>> = Vec::new();
    let mut i: usize = 0;
    while i < files.len()
        invariant
            i <= files.len(),
            tags.len() == i,
            forall|k: int| 0 <= k < i ==> (#[trigger] tags[k])@ == by_tag()(files[k]@),
        decreases files.len() - i,
    {
        tags.push(tag_of(files[i].as_str()));
        i += 1;
    }
    sort_by_keys(files, &tags, Ghost(by_tag()))
}

/// Puts the names found in a directory into lexical order, which is the
/// order that indices count entries in.
pub fn directories_in_path(names: &Vec<String>) -> (ordered: Vec<String>)
    ensures
        texts(ordered@) == sorted_by(by_name(), texts(names@)),
{
    let mut keys: Vec<Vec<char>> = Vec::new();
    let mut i: usize = 0;
    while i < names.len()
        invariant
            i <= names.len(),
            keys.len() == i,
            forall|k: int| 0 <= k < i ==> (#[trigger] keys[k])@ == by_name()(names[k]@),
        decreases names.len() - i,
    {
        keys.push(chars_of(names[i].as_str()));
        i += 1;
    }
    sort_by_keys(names, &keys, Ghost(by_name()))
}

/// The path of an entry of a directory.
pub fn path_of_entry(directory: &str, name: &str) -> (path: String)
    ensures
        path@ == entry_path(directory@, name@),
{
    proof {
        reveal_strlit("/");
    }
    let mut path = String::from_str(directory);
    path.append("/");
    path.append(name);
    assert(path@ =~= entry_path(directory@, name@));
    path
}

/// The directory of one category of a set.
pub fn path_builder(sets_root: &str, set: &str, category: &str) -> (path: String)
    ensures
        path@ == entry_path(entry_path(sets_root@, set@), category@),
{
    let set_directory = path_of_entry(sets_root, set);
    path_of_entry(set_directory.as_str(), category)
}

/// The assets of a category: the paths of the files found in its directory,
/// in the lexical order of their names. A category whose directory could
/// not be listed has no assets.
pub fn files_in_category(directory: &str, listing: &Option<Vec<String>>) -> (files: Vec<String>)
    ensures
        texts(files@) == assets_of(
            directory@,
            match *listing {
                Some(names) => Some(texts(names@)),
                None => None,
            },
        ),
{
    let mut files: Vec<String> = Vec::new();
    match listing {
        Some(names) => {
            let ordered = directories_in_path(names);
            let mut i: usize = 0;
            while i < ordered.len()
                invariant
                    i <= ordered.len(),
                    files.len() == i,
                    forall|k: int|
                        0 <= k < i ==> (#[trigger] files[k])@ == entry_path(
                            directory@,
                            ordered[k]@,
                        ),
                decreases ordered.len() - i,
            {
                files.push(path_of_entry(directory, ordered[i].as_str()));
                i += 1;
            }
            assert(texts(files@) =~= entry_paths(directory@, texts(ordered@)));
        },
        None => {
            assert(texts(files@) =~= Seq::empty());
        },
    }
    files
}

/// Finds the first category of that name.
fn find_named(listing: &Vec<CategoryListing>, name: &String) -> (at: usize)
    ensures
        at == first_named(listed(listing@), name@, 0),
        at <= listing.len(),
{
    let mut at: usize = 0;
    while at < listing.len() && listing[at].name != *name
        invariant
            at <= listing.len(),
            first_named(listed(listing@), name@, 0) == first_named(
                listed(listing@),
                name@,
                at as int,
            ),
        decreases listing.len() - at,
    {
        assert(listed(listing@)[at as int].name == listing[at as int].name@);
        at += 1;
    }
    proof {
        if at < listing.len() {
            assert(listed(listing@)[at as int].name == listing[at as int].name@);
        }
    }
    at
}

/// Makes the catalog of a set of what was found in its directory: the
/// categories in the lexical order of their names, each with the paths of
/// its files in the lexical order of theirs.
pub fn catalog_of(directory: &str, listing: &Vec<CategoryListing>) -> (categories: Vec<Vec<String>>)
    ensures
        listings(categories@) == catalog(directory@, listed(listing@)),
{
    let mut names: Vec<String> = Vec::new();
    let mut i: usize = 0;
    while i < listing.len()
        invariant
            i <= listing.len(),
            names.len() == i,
            forall|k: int| 0 <= k < i ==> (#[trigger] names[k])@ == listing[k].name@,
        decreases listing.len() - i,
    {
        names.push(listing[i].name.clone());
        i += 1;
    }
    assert(texts(names@) =~= names_of(listed(listing@)));
    let ordered = directories_in_path(&names);
    proof {
        sorted_by_keeps_the_texts(by_name(), texts(names@));
    }
    let mut categories: Vec<Vec<String>> = Vec::new();
    let mut i: usize = 0;
    while i < ordered.len()
        invariant
            i <= ordered.len(),
            ordered.len() == listing.len(),
            texts(ordered@) == sorted_by(by_name(), names_of(listed(listing@))),
            categories.len() == i,
            forall|k: int|
                0 <= k < i ==> texts((#[trigger] categories[k])@) == catalog(
                    directory@,
                    listed(listing@),
                )[k],
        decreases ordered.len() - i,
    {
        let name = &ordered[i];
        assert(texts(ordered@)[i as int] == name@);
        let at = find_named(listing, name);
        let path = path_of_entry(directory, name.as_str());
        let files = if at < listing.len() {
            assert(listed(listing@)[at as int] == listing[at as int]@);
            files_in_category(path.as_str(), &listing[at].files)
        } else {
            files_in_category(path.as_str(), &None)
        };
        categories.push(files);
        i += 1;
    }
    assert(listings(categories@) =~= catalog(directory@, listed(listing@)));
    categories
}

/// Ordering assets by tag settles the order they are layered in: the
/// result is in the order of the tags and holds the same assets, assets of
/// one tag keep the order they had, and assets that are in order already
/// stay as they are, so that ordering twice changes nothing.
pub proof fn ordering_by_tag_is_stable_and_idempotent(files: Seq<Seq<char>>, of_tag: Seq<char>)
    ensures
        is_sorted_by(by_tag(), sorted_by(by_tag(), files)),
        sorted_by(by_tag(), files).to_multiset() == files.to_multiset(),
        sorted_by(by_tag(), files).filter(has_key(by_tag(), of_tag)) == files.filter(
            has_key(by_tag(), of_tag),
        ),
        is_sorted_by(by_tag(), files) ==> sorted_by(by_tag(), files) == files,
        sorted_by(by_tag(), sorted_by(by_tag(), files)) == sorted_by(by_tag(), files),
{
    sorted_by_is_sorted(by_tag(), files);
    sorted_by_keeps_the_texts(by_tag(), files);
    sorted_by_is_stable(by_tag(), files, of_tag);
    if is_sorted_by(by_tag(), files) {
        sorted_by_keeps_a_sorted_list(by_tag(), files);
    }
    sorted_by_keeps_a_sorted_list(by_tag(), sorted_by(by_tag(), files));
}

/// Names are put into one order only, in whatever order they come.
pub proof fn names_have_one_order(first: Seq<Seq<char>>, second: Seq<Seq<char>>)
    requires
        first.to_multiset() == second.to_multiset(),
    ensures
        sorted_by(by_name(), first) == sorted_by(by_name(), second),
{
    let a = sorted_by(by_name(), first);
    let b = sorted_by(by_name(), second);
    sorted_by_is_sorted(by_name(), first);
    sorted_by_is_sorted(by_name(), second);
    sorted_by_keeps_the_texts(by_name(), first);
    sorted_by_keeps_the_texts(by_name(), second);
    assert forall|i: int, j: int| 0 <= i < j < a.len() implies !precedes(
        #[trigger] a[j],
        #[trigger] a[i],
    ) by {
        assert(!precedes(by_name()(a[j]), by_name()(a[i])));
    }
    assert forall|i: int, j: int| 0 <= i < j < b.len() implies !precedes(
        #[trigger] b[j],
        #[trigger] b[i],
    ) by {
        assert(!precedes(by_name()(b[j]), by_name()(b[i])));
    }
    texts_have_one_order(a, b);
}

/// Whether two listings of the files of a category hold the same names,
/// or are both missing.
pub open spec fn same_files(first: Option<Seq<Seq<char>>>, second: Option<Seq<Seq<char>>>) -> bool {
    match (first, second) {
        (Some(a), Some(b)) => a.to_multiset() == b.to_multiset(),
        (None, None) => true,
        _ => false,
    }
}

/// Whether two listings of a set differ in the order of their entries at
/// most: they hold the same category names, and list the same files for
/// each.
pub open spec fn same_listing(first: Seq<Listed>, second: Seq<Listed>) -> bool {
    &&& names_of(first).to_multiset() == names_of(second).to_multiset()
    &&& forall|name: Seq<char>|
        same_files(#[trigger] files_named(first, name), files_named(second, name))
}

/// The order in which a directory gives its entries does not matter: two
/// listings that differ in order only make the same catalog.
pub proof fn the_order_of_a_listing_does_not_matter(
    directory: Seq<char>,
    first: Seq<Listed>,
    second: Seq<Listed>,
)
    requires
        same_listing(first, second),
    ensures
        catalog(directory, first) == catalog(directory, second),
{
    names_have_one_order(names_of(first), names_of(second));
    let names = sorted_by(by_name(), names_of(first));
    let a = catalog(directory, first);
    let b = catalog(directory, second);
    assert forall|i: int| 0 <= i < a.len() implies a[i] == b[i] by {
        let name = names[i];
        assert(same_files(files_named(first, name), files_named(second, name)));
        match (files_named(first, name), files_named(second, name)) {
            (Some(x), Some(y)) => {
                names_have_one_order(x, y);
            },
            _ => {},
        }
    }
    assert(a =~= b);
}

} // verus!
