use vstd::prelude::*;
use vstd::string::*;
use crate::names::{
    spec_is_entry_name, join_path, is_under, is_entry_name, child_path, path_is_under,
};

verus! {

/// A password entry: its title (which ends in `.ps`) and its fields.
#[derive(Clone, Debug)]
pub struct Entry {
    pub title: String,
    pub username: String,
    pub password: String,
    pub url: String,
    pub notes: String,
}

/// One item of the vault: a folder (`entry` is `None`) or a password entry,
/// named `name` inside the folder at path `parent`.
#[derive(Clone, Debug)]
pub struct Item {
    pub parent: String,
    pub name: String,
    pub entry: Option<Entry>,
}

/// The vault database: its items, and the path of the folder being shown.
/// The root folder has the empty path; the folder `name` inside the folder at
/// `dir` has the path `dir/name`.
#[derive(Clone, Debug)]
pub struct VaultDb {
    pub items: Vec<Item>,
    pub position: String,
}

/// The path of an item: `parent/name`.
pub open spec fn item_path(it: Item) -> Seq<char> {
    join_path(it.parent@, it.name@)
}

/// The item lies directly in the folder `at` and is of the kind asked for.
pub open spec fn listed_at(it: Item, at: Seq<char>, entries: bool) -> bool {
    it.parent@ == at && (it.entry is Some) == entries
}

/// The names of the folders (`entries` false) or of the entries (`entries`
/// true) directly in the folder `at`, in the order of the items.
pub open spec fn names_at(items: Seq<Item>, at: Seq<char>, entries: bool) -> Seq<Seq<char>>
    decreases items.len(),
{
    if items.len() == 0 {
        Seq::empty()
    } else if listed_at(items.last(), at, entries) {
        names_at(items.drop_last(), at, entries).push(items.last().name@)
    } else {
        names_at(items.drop_last(), at, entries)
    }
}

/// `name` is already used in the folder `at` by an item of the kind the
/// name asks for: an entry with that title when the name holds `.ps`, a
/// folder with that name otherwise.
pub open spec fn item_has_name(it: Item, at: Seq<char>, name: Seq<char>) -> bool {
    &&& it.parent@ == at
    &&& if spec_is_entry_name(name) {
        it.entry matches Some(e) && e.title@ == name
    } else {
        it.entry is None && it.name@ == name
    }
}

pub open spec fn name_taken(items: Seq<Item>, at: Seq<char>, name: Seq<char>) -> bool {
    exists|i: int| 0 <= i < items.len() && #[trigger] item_has_name(items[i], at, name)
}

/// Deleting the path `path` removes this item: the entry at that path, or,
/// for a folder, the folder at that path and everything below it.
pub open spec fn removed_by(it: Item, path: Seq<char>, is_entry: bool) -> bool {
    if is_entry {
        it.entry is Some && item_path(it) == path
    } else {
        (it.entry is None && item_path(it) == path) || is_under(it.parent@, path)
    }
}

/// The items that deleting `path` leaves, in their order.
pub open spec fn retained(items: Seq<Item>, path: Seq<char>, is_entry: bool) -> Seq<Item>
    decreases items.len(),
{
    if items.len() == 0 {
        Seq::empty()
    } else if removed_by(items.last(), path, is_entry) {
        retained(items.drop_last(), path, is_entry)
    } else {
        retained(items.drop_last(), path, is_entry).push(items.last())
    }
}

/// A folder path the vault knows: the root, or the path of a folder item.
pub open spec fn is_folder_path(items: Seq<Item>, path: Seq<char>) -> bool {
    path.len() == 0 || exists|i: int|
        0 <= i < items.len() && items[i].entry is None && #[trigger] item_path(items[i]) == path
}

/// The folder item `old_name` directly in the folder `at`.
pub open spec fn is_renamed_folder(it: Item, at: Seq<char>, old_name: Seq<char>) -> bool {
    it.entry is None && it.parent@ == at && it.name@ == old_name
}

/// The parent path of an item after the folder at `old_path` moved to
/// `new_path`.
pub open spec fn moved_parent(p: Seq<char>, old_path: Seq<char>, new_path: Seq<char>) -> Seq<char> {
    if is_under(p, old_path) {
        new_path + p.skip(old_path.len() as int)
    } else {
        p
    }
}

/// `after` is `before` with the folder `old_name` of the folder `at`
/// renamed to `new_name`, and everything below it moved along.
pub open spec fn renamed(
    before: Seq<Item>,
    after: Seq<Item>,
    at: Seq<char>,
    old_name: Seq<char>,
    new_name: Seq<char>,
) -> bool {
    &&& after.len() == before.len()
    &&& forall|i: int| 0 <= i < before.len() ==> {
        let was = #[trigger] before[i];
        let now = after[i];
        &&& now.parent@ == moved_parent(was.parent@, join_path(at, old_name), join_path(at, new_name))
        &&& now.name@ == (if is_renamed_folder(was, at, old_name) { new_name } else { was.name@ })
        &&& now.entry == was.entry
    }
}

/// Every entry item is named by its entry's title.
pub open spec fn titles_match(items: Seq<Item>) -> bool {
    forall|i: int| 0 <= i < items.len() ==> ((#[trigger] items[i]).entry matches Some(e) ==> e.title@ == items[i].name@)
}

pub open spec fn string_views(v: Seq<String>) -> Seq<Seq<char>> {
    v.map_values(|s: String| s@)
}

fn same_string(a: &String, b: &String) -> (r: bool)
    ensures
        r == (a@ == b@),
{
    *a == *b
}

impl VaultDb {
    /// A new, empty vault shown at its root.
    pub fn new() -> (db: VaultDb)
        ensures
            db.items@.len() == 0,
            db.position@.len() == 0,
    {
        VaultDb { items: Vec::new(), position: String::new() }
    }

    /// The names of the folders or of the entries directly in the folder `at`.
    pub fn names_at(&self, at: &str, entries: bool) -> (names: Vec<String>)
        ensures
            string_views(names@) == names_at(self.items@, at@, entries),
    {
        let at_s: String = String::from_str(at);
        let mut names: Vec<String> = Vec::new();
        let mut i: usize = 0;
        assert(self.items@.take(0) =~= Seq::<Item>::empty());
        while i < self.items.len()
            invariant
                at_s@ == at@,
                i <= self.items@.len(),
                string_views(names@) == names_at(self.items@.take(i as int), at@, entries),
            decreases self.items@.len() - i,
        {
            let it: &Item = &self.items[i];
            let ghost t = self.items@.take(i + 1);
            assert(t.drop_last() =~= self.items@.take(i as int));
            assert(t.last() == *it);
            if same_string(&it.parent, &at_s) && it.entry.is_some() == entries {
                let ghost before = names@;
                names.push(it.name.clone());
                assert(string_views(names@) =~= string_views(before).push(it.name@));
            }
            i = i + 1;
        }
        assert(self.items@.take(i as int) =~= self.items@);
        names
    }

    /// What the list shows for the folder `at`: its folders, then its entries.
    pub fn listing(&self, at: &str) -> (names: Vec<String>)
        ensures
            string_views(names@) == names_at(self.items@, at@, false) + names_at(self.items@, at@, true),
    {
        let mut dirs: Vec<String> = self.names_at(at, false);
        let mut entries: Vec<String> = self.names_at(at, true);
        let ghost d = dirs@;
        let ghost e = entries@;
        dirs.append(&mut entries);
        assert(string_views(dirs@) =~= string_views(d) + string_views(e));
        dirs
    }

    /// Whether a new item may take `name` in the folder being shown:
    /// `Err(false)` when an item of the same kind already uses it, `Ok(true)`
    /// otherwise (`check_hashmap`).
    pub fn check_hashmap(&self, name: &str) -> (r: Result<bool, bool>)
        ensures
            r == (if name_taken(self.items@, self.position@, name@) {
                Err::<bool, bool>(false)
            } else {
                Ok::<bool, bool>(true)
            }),
    {
        let entry_kind: bool = is_entry_name(name);
        let name_s: String = String::from_str(name);
        let mut i: usize = 0;
        while i < self.items.len()
            invariant
                entry_kind == spec_is_entry_name(name@),
                name_s@ == name@,
                i <= self.items@.len(),
                forall|j: int| 0 <= j < i ==> !#[trigger] item_has_name(self.items@[j], self.position@, name@),
            decreases self.items@.len() - i,
        {
            let it: &Item = &self.items[i];
            if same_string(&it.parent, &self.position) {
                if entry_kind {
                    match &it.entry {
                        Some(e) => {
                            if same_string(&e.title, &name_s) {
                                assert(item_has_name(self.items@[i as int], self.position@, name@));
                                return Err(false);
                            }
                        },
                        None => {},
                    }
                } else {
                    if it.entry.is_none() && same_string(&it.name, &name_s) {
                        assert(item_has_name(self.items@[i as int], self.position@, name@));
                        return Err(false);
                    }
                }
            }
            i = i + 1;
        }
        Ok(true)
    }

    /// Adds a password entry to the folder `at` (`add_pass`).
    pub fn add_entry(&mut self, at: &str, entry: Entry)
        ensures
            final(self).items@.len() == old(self).items@.len() + 1,
            final(self).items@.drop_last() == old(self).items@,
            final(self).items@.last().parent@ == at@,
            final(self).items@.last().name@ == entry.title@,
            final(self).items@.last().entry == Some(entry),
            final(self).position == old(self).position,
    {
        let name: String = entry.title.clone();
        let it: Item = Item { parent: String::from_str(at), name: name, entry: Some(entry) };
        self.items.push(it);
        assert(self.items@.drop_last() =~= old(self).items@);
    }

    /// Adds a folder named `name` to the folder `at` (`add_dir`).
    pub fn add_dir(&mut self, at: &str, name: &str)
        ensures
            final(self).items@.len() == old(self).items@.len() + 1,
            final(self).items@.drop_last() == old(self).items@,
            final(self).items@.last().parent@ == at@,
            final(self).items@.last().name@ == name@,
            final(self).items@.last().entry is None,
            final(self).position == old(self).position,
    {
        let it: Item = Item { parent: String::from_str(at), name: String::from_str(name), entry: None };
        self.items.push(it);
        assert(self.items@.drop_last() =~= old(self).items@);
    }

    /// Deletes the entry at `path`, or the folder at `path` with everything
    /// below it (`deletebypath`).
    pub fn delete_by_path(&mut self, path: &str, is_entry: bool)
        ensures
            final(self).items@ == retained(old(self).items@, path@, is_entry),
            final(self).position == old(self).position,
    {
        let ghost orig = self.items@;
        let total: usize = self.items.len();
        let path_s: String = String::from_str(path);
        let mut rest: Vec<Item> = Vec::new();
        std::mem::swap(&mut rest, &mut self.items);
        let mut kept: Vec<Item> = Vec::new();
        let mut k: usize = 0;
        assert(orig.skip(0) =~= orig);
        assert(orig.take(0) =~= Seq::<Item>::empty());
        while rest.len() > 0
            invariant
                path_s@ == path@,
                k <= orig.len(),
                k + rest@.len() == orig.len(),
                total == orig.len(),
                rest@ == orig.skip(k as int),
                kept@ == retained(orig.take(k as int), path@, is_entry),
            decreases rest@.len(),
        {
            let it: Item = rest.remove(0);
            let ghost t = orig.take(k + 1);
            assert(t.drop_last() =~= orig.take(k as int));
            assert(t.last() == it);
            let p: String = child_path(it.parent.as_str(), it.name.as_str());
            let gone: bool = if is_entry {
                it.entry.is_some() && same_string(&p, &path_s)
            } else {
                (it.entry.is_none() && same_string(&p, &path_s)) || path_is_under(it.parent.as_str(), path)
            };
            if !gone {
                kept.push(it);
            }
            k = k + 1;
            assert(rest@ =~= orig.skip(k as int));
        }
        assert(orig.take(k as int) =~= orig);
        self.items = kept;
    }

    /// Renames the folder `old_name` in the folder `at` to `new_name`; the
    /// items below it move along, their parent paths now starting with the
    /// new path (setting the folder's `name`).
    pub fn rename_folder(&mut self, at: &str, old_name: &str, new_name: &str)
        requires
            is_folder_path(old(self).items@, join_path(at@, old_name@)),
        ensures
            renamed(old(self).items@, final(self).items@, at@, old_name@, new_name@),
            final(self).position == old(self).position,
    {
        let ghost orig = self.items@;
        let total: usize = self.items.len();
        let at_s: String = String::from_str(at);
        let old_s: String = String::from_str(old_name);
        let old_path: String = child_path(at, old_name);
        let new_path: String = child_path(at, new_name);
        let old_len: usize = old_path.as_str().unicode_len();
        let mut rest: Vec<Item> = Vec::new();
        std::mem::swap(&mut rest, &mut self.items);
        let mut done: Vec<Item> = Vec::new();
        let mut k: usize = 0;
        assert(orig.skip(0) =~= orig);
        while rest.len() > 0
            invariant
                at_s@ == at@,
                old_s@ == old_name@,
                old_path@ == join_path(at@, old_name@),
                new_path@ == join_path(at@, new_name@),
                old_len == old_path@.len(),
                k + rest@.len() == orig.len(),
                total == orig.len(),
                rest@ == orig.skip(k as int),
                done@.len() == k,
                forall|j: int| 0 <= j < k ==> {
                    let was = #[trigger] orig[j];
                    let now = done@[j];
                    &&& now.parent@ == moved_parent(was.parent@, old_path@, new_path@)
                    &&& now.name@ == (if is_renamed_folder(was, at@, old_name@) { new_name@ } else { was.name@ })
                    &&& now.entry == was.entry
                },
            decreases rest@.len(),
        {
            let it: Item = rest.remove(0);
            assert(it == orig[k as int]);
            let target: bool = it.entry.is_none() && same_string(&it.parent, &at_s)
                && same_string(&it.name, &old_s);
            let name: String = if target { String::from_str(new_name) } else { it.name };
            let parent: String = if path_is_under(it.parent.as_str(), old_path.as_str()) {
                let plen: usize = it.parent.as_str().unicode_len();
                let tail: &str = it.parent.as_str().substring_char(old_len, plen);
                new_path.clone().concat(tail)
            } else {
                it.parent
            };
            let ghost before = done@;
            done.push(Item { parent: parent, name: name, entry: it.entry });
            assert(done@[k as int] == done@.last());
            assert forall|j: int| 0 <= j < k implies done@[j] == before[j] by {}
            k = k + 1;
            assert(rest@ =~= orig.skip(k as int));
        }
        self.items = done;
        assert(renamed(orig, self.items@, at@, old_name@, new_name@));
    }

    /// Adds the entry to the folder being shown unless its title is taken
    /// there; tells whether it was added (the entry form's `Ok`).
    pub fn try_add_entry(&mut self, entry: Entry) -> (added: bool)
        ensures
            added == !name_taken(old(self).items@, old(self).position@, entry.title@),
            added ==> final(self).items@ == old(self).items@.push(final(self).items@.last())
                && final(self).items@.last().parent@ == old(self).position@
                && final(self).items@.last().name@ == entry.title@
                && final(self).items@.last().entry == Some(entry),
            !added ==> final(self).items == old(self).items,
            final(self).position == old(self).position,
    {
        match self.check_hashmap(entry.title.as_str()) {
            Ok(_) => {
                let at: String = self.position.clone();
                self.add_entry(at.as_str(), entry);
                assert(self.items@ =~= old(self).items@.push(self.items@.last()));
                true
            },
            Err(_) => false,
        }
    }

    /// Adds the folder to the folder being shown unless its name is taken
    /// there; tells whether it was added (the folder form's `Ok`).
    pub fn try_add_dir(&mut self, name: &str) -> (added: bool)
        ensures
            added == !name_taken(old(self).items@, old(self).position@, name@),
            added ==> final(self).items@ == old(self).items@.push(final(self).items@.last())
                && final(self).items@.last().parent@ == old(self).position@
                && final(self).items@.last().name@ == name@
                && final(self).items@.last().entry is None,
            !added ==> final(self).items == old(self).items,
            final(self).position == old(self).position,
    {
        match self.check_hashmap(name) {
            Ok(_) => {
                let at: String = self.position.clone();
                self.add_dir(at.as_str(), name);
                assert(self.items@ =~= old(self).items@.push(self.items@.last()));
                true
            },
            Err(_) => false,
        }
    }

    /// Deletes the item `name` listed in the folder being shown: the entry
    /// at `position/name` when the name holds `.ps`, else that folder with
    /// everything below it (the `Delete` button).
    pub fn delete_listed(&mut self, name: &str)
        ensures
            final(self).items@ == retained(old(self).items@, join_path(old(self).position@, name@),
                spec_is_entry_name(name@)),
            final(self).position == old(self).position,
    {
        let is_entry: bool = is_entry_name(name);
        let path: String = child_path(self.position.as_str(), name);
        self.delete_by_path(path.as_str(), is_entry);
    }

    /// Replaces the listed entry `old_title` of the folder being shown by
    /// `entry`, unless a changed title is taken there; tells whether it did
    /// (the `Ok` of the entry form when editing).
    pub fn try_replace_entry(&mut self, old_title: &str, entry: Entry) -> (done: bool)
        ensures
            done == (old_title@ == entry.title@
                || !name_taken(old(self).items@, old(self).position@, entry.title@)),
            done ==> {
                let kept = retained(old(self).items@, join_path(old(self).position@, old_title@),
                    spec_is_entry_name(old_title@));
                &&& final(self).items@ == kept.push(final(self).items@.last())
                &&& final(self).items@.last().parent@ == old(self).position@
                &&& final(self).items@.last().name@ == entry.title@
                &&& final(self).items@.last().entry == Some(entry)
            },
            !done ==> final(self).items == old(self).items,
            final(self).position == old(self).position,
    {
        let same: bool = String::from_str(old_title) == entry.title;
        if !same {
            match self.check_hashmap(entry.title.as_str()) {
                Ok(_) => {},
                Err(_) => {
                    return false;
                },
            }
        }
        self.delete_listed(old_title);
        let ghost kept = self.items@;
        let at: String = self.position.clone();
        self.add_entry(at.as_str(), entry);
        assert(self.items@ =~= kept.push(self.items@.last()));
        true
    }

    /// Renames the listed folder `old_name` of the folder being shown to
    /// `new_name`, unless a changed name is taken there; tells whether it did
    /// (the `Ok` of the folder form when editing).
    pub fn try_rename_folder(&mut self, old_name: &str, new_name: &str) -> (done: bool)
        requires
            is_folder_path(old(self).items@, join_path(old(self).position@, old_name@)),
        ensures
            done == (old_name@ == new_name@
                || !name_taken(old(self).items@, old(self).position@, new_name@)),
            done ==> renamed(old(self).items@, final(self).items@, old(self).position@, old_name@, new_name@),
            !done ==> final(self).items == old(self).items,
            final(self).position == old(self).position,
    {
        let old_s: String = String::from_str(old_name);
        let new_s: String = String::from_str(new_name);
        if !same_string(&old_s, &new_s) {
            match self.check_hashmap(new_name) {
                Ok(_) => {},
                Err(_) => {
                    return false;
                },
            }
        }
        let at: String = self.position.clone();
        self.rename_folder(at.as_str(), old_name, new_name);
        true
    }

    /// Whether `path` is a folder of the vault: the root or a folder item.
    pub fn is_folder(&self, path: &str) -> (r: bool)
        ensures
            r == is_folder_path(self.items@, path@),
    {
        if path.unicode_len() == 0 {
            return true;
        }
        let path_s: String = String::from_str(path);
        let mut i: usize = 0;
        while i < self.items.len()
            invariant
                path_s@ == path@,
                path@.len() > 0,
                i <= self.items@.len(),
                forall|j: int| 0 <= j < i ==> !(self.items@[j].entry is None
                    && #[trigger] item_path(self.items@[j]) == path@),
            decreases self.items@.len() - i,
        {
            let it: &Item = &self.items[i];
            if it.entry.is_none() {
                let p: String = child_path(it.parent.as_str(), it.name.as_str());
                if same_string(&p, &path_s) {
                    assert(self.items@[i as int].entry is None && item_path(self.items@[i as int]) == path@);
                    return true;
                }
            }
            i = i + 1;
        }
        false
    }

    /// Shows the folder at `path` when the vault has it; otherwise nothing
    /// changes (`gotupath`).
    pub fn goto(&mut self, path: &str) -> (ok: bool)
        ensures
            ok == is_folder_path(old(self).items@, path@),
            final(self).items == old(self).items,
            ok ==> final(self).position@ == path@,
            !ok ==> final(self).position == old(self).position,
    {
        if self.is_folder(path) {
            self.position = String::from_str(path);
            true
        } else {
            false
        }
    }

    /// The first password entry whose path is `path` (`get_pass`).
    pub fn find_entry(&self, path: &str) -> (r: Option<&Entry>)
        ensures
            r matches Some(e) ==> exists|i: int| 0 <= i < self.items@.len()
                && self.items@[i].entry == Some(*e) && #[trigger] item_path(self.items@[i]) == path@
                && forall|j: int| 0 <= j < i ==> !(self.items@[j].entry is Some
                    && #[trigger] item_path(self.items@[j]) == path@),
            r is None ==> forall|i: int| 0 <= i < self.items@.len() ==> !(self.items@[i].entry is Some
                && #[trigger] item_path(self.items@[i]) == path@),
    {
        let path_s: String = String::from_str(path);
        let mut i: usize = 0;
        while i < self.items.len()
            invariant
                path_s@ == path@,
                i <= self.items@.len(),
                forall|j: int| 0 <= j < i ==> !(self.items@[j].entry is Some
                    && #[trigger] item_path(self.items@[j]) == path@),
            decreases self.items@.len() - i,
        {
            let it: &Item = &self.items[i];
            match &it.entry {
                Some(e) => {
                    let p: String = child_path(it.parent.as_str(), it.name.as_str());
                    if same_string(&p, &path_s) {
                        assert(item_path(self.items@[i as int]) == path@);
                        return Some(e);
                    }
                },
                None => {},
            }
            i = i + 1;
        }
        None
    }
}

/// A folder just added to `at` makes its name taken there.
pub proof fn law_added_folder_is_taken(items: Seq<Item>, it: Item)
    requires
        it.entry is None,
        !spec_is_entry_name(it.name@),
    ensures
        name_taken(items.push(it), it.parent@, it.name@),
{
    let s = items.push(it);
    assert(item_has_name(s[items.len() as int], it.parent@, it.name@));
}

/// An entry just added to `at` makes its title taken there.
pub proof fn law_added_entry_is_taken(items: Seq<Item>, it: Item)
    requires
        it.entry matches Some(e) && e.title@ == it.name@,
        spec_is_entry_name(it.name@),
    ensures
        name_taken(items.push(it), it.parent@, it.name@),
{
    let s = items.push(it);
    assert(item_has_name(s[items.len() as int], it.parent@, it.name@));
}

/// An item just added shows up last in the list of its kind in its folder.
pub proof fn law_added_item_is_listed(items: Seq<Item>, it: Item)
    ensures
        names_at(items.push(it), it.parent@, it.entry is Some)
            == names_at(items, it.parent@, it.entry is Some).push(it.name@),
{
    let s = items.push(it);
    assert(s.drop_last() =~= items);
}

/// Deleting keeps exactly the items the deleted path does not cover, in
/// their order: nothing it covers is left, and everything else stays.
pub proof fn law_delete_keeps_the_rest(items: Seq<Item>, path: Seq<char>, is_entry: bool)
    ensures
        forall|i: int| 0 <= i < retained(items, path, is_entry).len()
            ==> !removed_by(#[trigger] retained(items, path, is_entry)[i], path, is_entry),
        forall|i: int| 0 <= i < items.len() && !removed_by(#[trigger] items[i], path, is_entry)
            ==> retained(items, path, is_entry).contains(items[i]),
        forall|i: int| 0 <= i < retained(items, path, is_entry).len()
            ==> items.contains(#[trigger] retained(items, path, is_entry)[i]),
    decreases items.len(),
{
    if items.len() > 0 {
        let rest = items.drop_last();
        law_delete_keeps_the_rest(rest, path, is_entry);
        let r = retained(items, path, is_entry);
        let rr = retained(rest, path, is_entry);
        assert forall|i: int| 0 <= i < items.len() && !removed_by(#[trigger] items[i], path, is_entry)
            implies r.contains(items[i]) by {
            if i < items.len() - 1 {
                assert(rest[i] == items[i]);
                let k = choose|k: int| 0 <= k < rr.len() && rr[k] == rest[i];
                assert(r[k] == rr[k]);
            } else {
                assert(r[r.len() - 1] == items.last());
            }
        }
        assert forall|i: int| 0 <= i < r.len() implies items.contains(#[trigger] r[i]) by {
            if i < rr.len() {
                assert(r[i] == rr[i]);
                let k = choose|k: int| 0 <= k < rest.len() && rest[k] == rr[i];
                assert(items[k] == rest[k]);
            } else {
                assert(r[i] == items.last());
                assert(items[items.len() - 1] == items.last());
            }
        }
        assert forall|i: int| 0 <= i < r.len() implies !removed_by(#[trigger] r[i], path, is_entry) by {
            if i < rr.len() {
                assert(r[i] == rr[i]);
            }
        }
    }
}

/// After renaming a folder of `at` to `new_name`, that name is taken in
/// `at`.
pub proof fn law_renamed_folder_is_taken(
    before: Seq<Item>,
    after: Seq<Item>,
    at: Seq<char>,
    old_name: Seq<char>,
    new_name: Seq<char>,
    k: int,
)
    requires
        renamed(before, after, at, old_name, new_name),
        0 <= k < before.len(),
        is_renamed_folder(before[k], at, old_name),
        !spec_is_entry_name(new_name),
    ensures
        name_taken(after, at, new_name),
{
    let was = before[k];
    assert(!is_under(at, join_path(at, old_name)));
    assert(item_has_name(after[k], at, new_name));
}

/// Once an item is deleted, its name is free again in its folder: no item
/// of that kind is left there under that name.
pub proof fn law_deleted_name_is_free(items: Seq<Item>, at: Seq<char>, name: Seq<char>)
    requires
        titles_match(items),
    ensures
        !name_taken(retained(items, join_path(at, name), spec_is_entry_name(name)), at, name),
{
    let is_entry = spec_is_entry_name(name);
    let path = join_path(at, name);
    let r = retained(items, path, is_entry);
    law_delete_keeps_the_rest(items, path, is_entry);
    assert forall|i: int| 0 <= i < r.len() implies !#[trigger] item_has_name(r[i], at, name) by {
        let k = choose|k: int| 0 <= k < items.len() && items[k] == r[i];
        if item_has_name(r[i], at, name) {
            assert(removed_by(r[i], path, is_entry));
        }
    }
}

/// Deleting the entry at `path` removes exactly the entries whose own path
/// `parent/name` is `path`: every other item (a folder, or an entry of the
/// same name in another folder) stays, and nothing else is added.
pub proof fn law_entry_delete_exact(items: Seq<Item>, path: Seq<char>)
    ensures
        forall|i: int| 0 <= i < items.len()
            && !((#[trigger] items[i]).entry is Some && items[i].parent@ + seq!['/'] + items[i].name@ == path)
            ==> retained(items, path, true).contains(items[i]),
        forall|j: int| 0 <= j < retained(items, path, true).len() ==> {
            let it = #[trigger] retained(items, path, true)[j];
            &&& !(it.entry is Some && it.parent@ + seq!['/'] + it.name@ == path)
            &&& items.contains(it)
        },
{
    law_delete_keeps_the_rest(items, path, true);
    let r = retained(items, path, true);
    assert forall|i: int| 0 <= i < items.len()
        && !((#[trigger] items[i]).entry is Some && items[i].parent@ + seq!['/'] + items[i].name@ == path)
        implies r.contains(items[i]) by {
        assert(!removed_by(items[i], path, true));
    }
    assert forall|j: int| 0 <= j < r.len() implies {
        let it = #[trigger] r[j];
        &&& !(it.entry is Some && it.parent@ + seq!['/'] + it.name@ == path)
        &&& items.contains(it)
    } by {
        assert(!removed_by(r[j], path, true));
    }
}

/// Deleting the folder at `path` removes exactly that folder item and the
/// items whose parent is `path` or a path below it (`path/...`); every other
/// item stays.
pub proof fn law_folder_delete_exact(items: Seq<Item>, path: Seq<char>)
    ensures
        forall|i: int| 0 <= i < items.len() && !({
            let it = #[trigger] items[i];
            ||| it.entry is None && it.parent@ + seq!['/'] + it.name@ == path
            ||| it.parent@ == path
            ||| it.parent@.len() > path.len() && it.parent@.take(path.len() + 1int) == path + seq!['/']
        }) ==> retained(items, path, false).contains(items[i]),
        forall|j: int| 0 <= j < retained(items, path, false).len() ==> {
            let it = #[trigger] retained(items, path, false)[j];
            &&& !(it.entry is None && it.parent@ + seq!['/'] + it.name@ == path)
            &&& it.parent@ != path
            &&& !(it.parent@.len() > path.len() && it.parent@.take(path.len() + 1int) == path + seq!['/'])
            &&& items.contains(it)
        },
{
    law_delete_keeps_the_rest(items, path, false);
    let r = retained(items, path, false);
    assert forall|i: int| 0 <= i < items.len() && !({
        let it = #[trigger] items[i];
        ||| it.entry is None && it.parent@ + seq!['/'] + it.name@ == path
        ||| it.parent@ == path
        ||| it.parent@.len() > path.len() && it.parent@.take(path.len() + 1int) == path + seq!['/']
    }) implies r.contains(items[i]) by {
        assert(!removed_by(items[i], path, false));
    }
    assert forall|j: int| 0 <= j < r.len() implies {
        let it = #[trigger] r[j];
        &&& !(it.entry is None && it.parent@ + seq!['/'] + it.name@ == path)
        &&& it.parent@ != path
        &&& !(it.parent@.len() > path.len() && it.parent@.take(path.len() + 1int) == path + seq!['/'])
        &&& items.contains(it)
    } by {
        assert(!removed_by(r[j], path, false));
    }
}

/// Renaming the folder `old_name` of `at` changes the name of exactly the
/// folder items whose parent is `at` and whose name is `old_name`, to
/// `new_name`; every other item keeps its name and kind. Parents equal to
/// `at/old_name` or below it now start with `at/new_name` (the rest of the
/// path kept); every other parent is unchanged.
pub proof fn law_rename_exact(
    before: Seq<Item>,
    after: Seq<Item>,
    at: Seq<char>,
    old_name: Seq<char>,
    new_name: Seq<char>,
)
    requires
        renamed(before, after, at, old_name, new_name),
    ensures
        after.len() == before.len(),
        forall|i: int| 0 <= i < before.len() ==> {
            let was = #[trigger] before[i];
            let now = after[i];
            let op = at + seq!['/'] + old_name;
            &&& now.entry == was.entry
            &&& (was.entry is None && was.parent@ == at && was.name@ == old_name ==> now.name@ == new_name)
            &&& (!(was.entry is None && was.parent@ == at && was.name@ == old_name) ==> now.name@ == was.name@)
            &&& (was.parent@ == op || (was.parent@.len() > op.len()
                && was.parent@.take(op.len() + 1int) == op + seq!['/'])
                ==> now.parent@ == (at + seq!['/'] + new_name) + was.parent@.skip(op.len() as int))
            &&& (!(was.parent@ == op || (was.parent@.len() > op.len()
                && was.parent@.take(op.len() + 1int) == op + seq!['/'])) ==> now.parent@ == was.parent@)
        },
{
    assert forall|i: int| 0 <= i < before.len() implies {
        let was = #[trigger] before[i];
        let now = after[i];
        let op = at + seq!['/'] + old_name;
        &&& now.entry == was.entry
        &&& (was.entry is None && was.parent@ == at && was.name@ == old_name ==> now.name@ == new_name)
        &&& (!(was.entry is None && was.parent@ == at && was.name@ == old_name) ==> now.name@ == was.name@)
        &&& (was.parent@ == op || (was.parent@.len() > op.len()
            && was.parent@.take(op.len() + 1int) == op + seq!['/'])
            ==> now.parent@ == (at + seq!['/'] + new_name) + was.parent@.skip(op.len() as int))
        &&& (!(was.parent@ == op || (was.parent@.len() > op.len()
            && was.parent@.take(op.len() + 1int) == op + seq!['/'])) ==> now.parent@ == was.parent@)
    } by {
        let was = before[i];
        assert(join_path(at, old_name) == at + seq!['/'] + old_name);
        assert(join_path(at, new_name) == at + seq!['/'] + new_name);
    }
}

/// The vault knows a folder path exactly when it is the root (empty) or the
/// path `parent/name` of one of its folder items; no other path, such as a
/// path below a folder that no item has, is a folder.
pub proof fn law_folder_paths_exact(items: Seq<Item>, path: Seq<char>)
    ensures
        is_folder_path(items, path) <==> (path.len() == 0 || exists|i: int| 0 <= i < items.len()
            && (#[trigger] items[i]).entry is None && items[i].parent@ + seq!['/'] + items[i].name@ == path),
{
    if is_folder_path(items, path) && path.len() != 0 {
        let i = choose|i: int| 0 <= i < items.len() && items[i].entry is None && #[trigger] item_path(items[i]) == path;
        assert(items[i].entry is None && items[i].parent@ + seq!['/'] + items[i].name@ == path);
    }
    if path.len() != 0 && exists|i: int| 0 <= i < items.len()
        && (#[trigger] items[i]).entry is None && items[i].parent@ + seq!['/'] + items[i].name@ == path {
        let i = choose|i: int| 0 <= i < items.len()
            && (#[trigger] items[i]).entry is None && items[i].parent@ + seq!['/'] + items[i].name@ == path;
        assert(item_path(items[i]) == path);
    }
}

} // verus!
