//! The mutable state of a preprocessing run: the macro table, the set of
//! files already included, and the map of source files handed in by the
//! caller.
use vstd::prelude::*;

use crate::text::{chars_eq, str_to_chars};

verus! {

/// What an identifier is defined as: plain replacement text, or a
/// parameterised macro with a body.
pub enum Definition {
    Value(Vec<char>),
    Macro(Vec<Vec<char>>, Vec<char>),
}

/// The mathematical shape of a definition.
pub enum DefModel {
    Value(Seq<char>),
    Macro(Seq<Seq<char>>, Seq<char>),
}

/// The views of a sequence's elements, in order.
pub open spec fn views_of<T: View>(v: Seq<T>) -> Seq<T::V> {
    Seq::new(v.len(), |i: int| v[i]@)
}

impl View for Definition {
    type V = DefModel;

    open spec fn view(&self) -> DefModel {
        match self {
            Definition::Value(v) => DefModel::Value(v@),
            Definition::Macro(ps, b) => DefModel::Macro(views_of(ps@), b@),
        }
    }
}

/// What `name` is defined as in the table: the first entry with that key.
pub open spec fn spec_lookup(t: Seq<(Seq<char>, DefModel)>, name: Seq<char>) -> Option<DefModel>
    decreases t.len(),
{
    if t.len() == 0 {
        None
    } else if t[0].0 == name {
        Some(t[0].1)
    } else {
        spec_lookup(t.drop_first(), name)
    }
}

/// The table after defining `name`: the first entry with that key is
/// replaced in place, or the pair is appended at the end.
pub open spec fn spec_table_insert(
    t: Seq<(Seq<char>, DefModel)>,
    name: Seq<char>,
    def: DefModel,
) -> Seq<(Seq<char>, DefModel)>
    decreases t.len(),
{
    if t.len() == 0 {
        seq![(name, def)]
    } else if t[0].0 == name {
        seq![(name, def)] + t.drop_first()
    } else {
        seq![t[0]] + spec_table_insert(t.drop_first(), name, def)
    }
}

proof fn lemma_table_insert_found(
    t: Seq<(Seq<char>, DefModel)>,
    name: Seq<char>,
    def: DefModel,
    i: int,
)
    requires
        0 <= i < t.len(),
        t[i].0 == name,
        forall|j: int| 0 <= j < i ==> t[j].0 != name,
    ensures
        spec_table_insert(t, name, def) == t.update(i, (name, def)),
    decreases t.len(),
{
    if i == 0 {
        assert(spec_table_insert(t, name, def) =~= t.update(0, (name, def)));
    } else {
        lemma_table_insert_found(t.drop_first(), name, def, i - 1);
        assert(t.update(i, (name, def)).drop_first() =~= t.drop_first().update(i - 1, (name, def)));
        assert(spec_table_insert(t, name, def) =~= t.update(i, (name, def)));
    }
}

proof fn lemma_table_insert_absent(t: Seq<(Seq<char>, DefModel)>, name: Seq<char>, def: DefModel)
    requires
        forall|j: int| 0 <= j < t.len() ==> t[j].0 != name,
    ensures
        spec_table_insert(t, name, def) == t.push((name, def)),
    decreases t.len(),
{
    if t.len() == 0 {
        assert(spec_table_insert(t, name, def) =~= t.push((name, def)));
    } else {
        lemma_table_insert_absent(t.drop_first(), name, def);
        assert(t.push((name, def)).drop_first() =~= t.drop_first().push((name, def)));
        assert(spec_table_insert(t, name, def) =~= t.push((name, def)));
    }
}

/// The table after undefining `name`: the first entry with that key is
/// gone; a table without one is unchanged.
pub open spec fn spec_table_remove(t: Seq<(Seq<char>, DefModel)>, name: Seq<char>) -> Seq<
    (Seq<char>, DefModel),
>
    decreases t.len(),
{
    if t.len() == 0 {
        t
    } else if t[0].0 == name {
        t.drop_first()
    } else {
        seq![t[0]] + spec_table_remove(t.drop_first(), name)
    }
}

proof fn lemma_table_remove_found(t: Seq<(Seq<char>, DefModel)>, name: Seq<char>, i: int)
    requires
        0 <= i < t.len(),
        t[i].0 == name,
        forall|j: int| 0 <= j < i ==> t[j].0 != name,
    ensures
        spec_table_remove(t, name) == t.remove(i),
    decreases t.len(),
{
    if i == 0 {
        assert(spec_table_remove(t, name) =~= t.remove(0));
    } else {
        lemma_table_remove_found(t.drop_first(), name, i - 1);
        assert(t.remove(i).drop_first() =~= t.drop_first().remove(i - 1));
        assert(spec_table_remove(t, name) =~= t.remove(i));
    }
}

proof fn lemma_table_remove_absent(t: Seq<(Seq<char>, DefModel)>, name: Seq<char>)
    requires
        forall|j: int| 0 <= j < t.len() ==> t[j].0 != name,
    ensures
        spec_table_remove(t, name) == t,
    decreases t.len(),
{
    if t.len() > 0 {
        lemma_table_remove_absent(t.drop_first(), name);
        assert(spec_table_remove(t, name) =~= t);
    }
}

/// The run-wide mapping from identifier to definition. `#define` overwrites
/// an existing entry, `#undef` removes it.
pub struct MacroTable {
    entries: Vec<(Vec<char>, Definition)>,
}

impl View for MacroTable {
    type V = Seq<(Seq<char>, DefModel)>;

    closed spec fn view(&self) -> Seq<(Seq<char>, DefModel)> {
        Seq::new(self.entries@.len(), |i: int| (self.entries@[i].0@, self.entries@[i].1@))
    }
}

proof fn lemma_lookup_found(t: Seq<(Seq<char>, DefModel)>, name: Seq<char>, i: int)
    requires
        0 <= i < t.len(),
        t[i].0 == name,
        forall|j: int| 0 <= j < i ==> t[j].0 != name,
    ensures
        spec_lookup(t, name) == Some(t[i].1),
    decreases t.len(),
{
    if i > 0 {
        lemma_lookup_found(t.drop_first(), name, i - 1);
    }
}

proof fn lemma_lookup_absent(t: Seq<(Seq<char>, DefModel)>, name: Seq<char>)
    requires
        forall|j: int| 0 <= j < t.len() ==> t[j].0 != name,
    ensures
        spec_lookup(t, name) is None,
    decreases t.len(),
{
    if t.len() > 0 {
        lemma_lookup_absent(t.drop_first(), name);
    }
}

impl MacroTable {
    /// No two entries share a key; `#define` overwrites in place, so the
    /// table keeps this from the moment it is created.
    pub open spec fn wf(&self) -> bool {
        forall|i: int, j: int| 0 <= i < j < self@.len() ==> self@[i].0 != self@[j].0
    }

    /// A table with no definitions.
    pub fn new() -> (r: MacroTable)
        ensures
            r@.len() == 0,
            r.wf(),
    {
        MacroTable { entries: Vec::new() }
    }

    /// The position of the first entry named `name`, if any.
    fn find(&self, name: &Vec<char>) -> (r: Option<usize>)
        ensures
            match r {
                Some(i) => i < self@.len() && self@[i as int].0 == name@ && (forall|j: int|
                    0 <= j < i ==> self@[j].0 != name@),
                None => forall|j: int| 0 <= j < self@.len() ==> self@[j].0 != name@,
            },
    {
        let mut i: usize = 0;
        while i < self.entries.len()
            invariant
                i <= self@.len(),
                self@.len() == self.entries@.len(),
                forall|j: int| 0 <= j < i ==> self@[j].0 != name@,
            decreases self@.len() - i,
        {
            if chars_eq(&self.entries[i].0, name) {
                return Some(i);
            }
            i = i + 1;
        }
        None
    }

    /// What `name` is defined as, if anything.
    pub fn get(&self, name: &Vec<char>) -> (r: Option<&Definition>)
        ensures
            match r {
                Some(d) => spec_lookup(self@, name@) == Some(d@),
                None => spec_lookup(self@, name@) is None,
            },
    {
        match self.find(name) {
            Some(i) => {
                proof {
                    lemma_lookup_found(self@, name@, i as int);
                }
                Some(&self.entries[i].1)
            },
            None => {
                proof {
                    lemma_lookup_absent(self@, name@);
                }
                None
            },
        }
    }

    /// Defines `name`, overwriting any earlier definition.
    pub fn insert(&mut self, name: Vec<char>, def: Definition)
        requires
            old(self).wf(),
        ensures
            final(self).wf(),
            final(self)@ == spec_table_insert(old(self)@, name@, def@),
            spec_lookup(final(self)@, name@) == Some(def@),
            forall|o: Seq<char>| o != name@ ==> spec_lookup(final(self)@, o) == spec_lookup(
                old(self)@,
                o,
            ),
            final(self)@.len() != 0,
    {
        let ghost pre = self@;
        match self.find(&name) {
            Some(i) => {
                let ghost nd = (name@, def@);
                self.entries.remove(i);
                self.entries.insert(i, (name, def));
                proof {
                    assert(self@ =~= pre.update(i as int, nd));
                    lemma_table_insert_found(pre, name@, def@, i as int);
                    assert(forall|j: int|
                        0 <= j < pre.len() && j != i ==> self@[j] == pre[j]);
                    lemma_lookup_found(self@, name@, i as int);
                    assert forall|o: Seq<char>| o != name@ implies spec_lookup(self@, o)
                        == spec_lookup(pre, o) by {
                        lemma_lookup_update(pre, self@, i as int, o);
                    }
                }
            },
            None => {
                let ghost nd = (name@, def@);
                self.entries.push((name, def));
                proof {
                    assert(self@ =~= pre.push(nd));
                    lemma_table_insert_absent(pre, name@, def@);
                    assert(forall|j: int| 0 <= j < pre.len() ==> self@[j] == pre[j]);
                    lemma_lookup_found(self@, name@, self@.len() - 1);
                    assert forall|o: Seq<char>| o != name@ implies spec_lookup(self@, o)
                        == spec_lookup(pre, o) by {
                        assert(self@.drop_last() =~= pre);
                        lemma_lookup_push(pre, self@.last(), o);
                    }
                }
            },
        }
    }

    /// Removes the definition of `name`, if there is one.
    pub fn remove(&mut self, name: &Vec<char>)
        requires
            old(self).wf(),
        ensures
            final(self).wf(),
            final(self)@ == spec_table_remove(old(self)@, name@),
            spec_lookup(final(self)@, name@) is None,
            forall|o: Seq<char>| o != name@ ==> spec_lookup(final(self)@, o) == spec_lookup(
                old(self)@,
                o,
            ),
    {
        let ghost pre = self@;
        match self.find(name) {
            Some(i) => {
                self.entries.remove(i);
                proof {
                    assert(self@ =~= pre.remove(i as int));
                    lemma_table_remove_found(pre, name@, i as int);
                    assert(forall|j: int| 0 <= j < self@.len() ==> self@[j].0 != name@);
                    lemma_lookup_absent(self@, name@);
                    assert forall|o: Seq<char>| o != name@ implies spec_lookup(self@, o)
                        == spec_lookup(pre, o) by {
                        lemma_lookup_remove(pre, i as int, o);
                    }
                }
            },
            None => {
                proof {
                    lemma_table_remove_absent(pre, name@);
                    lemma_lookup_absent(self@, name@);
                }
            },
        }
    }
}

proof fn lemma_lookup_push(t: Seq<(Seq<char>, DefModel)>, e: (Seq<char>, DefModel), o: Seq<char>)
    requires
        e.0 != o,
    ensures
        spec_lookup(t.push(e), o) == spec_lookup(t, o),
    decreases t.len(),
{
    if t.len() == 0 {
        assert(t.push(e).drop_first() =~= Seq::<(Seq<char>, DefModel)>::empty());
    } else {
        assert(t.push(e).drop_first() =~= t.drop_first().push(e));
        lemma_lookup_push(t.drop_first(), e, o);
    }
}

/// Replacing entry `i` (whose key stays on both sides out of `o`'s way only
/// when the keys differ from `o`) leaves the lookup of `o` unchanged.
proof fn lemma_lookup_update(
    pre: Seq<(Seq<char>, DefModel)>,
    post: Seq<(Seq<char>, DefModel)>,
    i: int,
    o: Seq<char>,
)
    requires
        pre.len() == post.len(),
        0 <= i < pre.len(),
        pre[i].0 != o,
        post[i].0 != o,
        forall|j: int| 0 <= j < pre.len() && j != i ==> post[j] == pre[j],
    ensures
        spec_lookup(post, o) == spec_lookup(pre, o),
    decreases pre.len(),
{
    if pre.len() > 0 {
        if i == 0 {
            assert(post.drop_first() =~= pre.drop_first());
        } else {
            assert(post[0] == pre[0]);
            if pre[0].0 != o {
                lemma_lookup_update(pre.drop_first(), post.drop_first(), i - 1, o);
            }
        }
    }
}

/// The set of canonical paths already entered during a run. A path in the
/// set makes any further inclusion of the same file contribute nothing.
pub struct VisitedSet {
    paths: Vec<Vec<char>>,
}

impl View for VisitedSet {
    type V = Set<Seq<char>>;

    closed spec fn view(&self) -> Set<Seq<char>> {
        views_of(self.paths@).to_set()
    }
}

impl VisitedSet {
    /// An empty set: no file has been entered yet.
    pub fn new() -> (r: VisitedSet)
        ensures
            r@ == Set::<Seq<char>>::empty(),
    {
        let r = VisitedSet { paths: Vec::new() };
        proof {
            assert(r@ =~= Set::<Seq<char>>::empty());
        }
        r
    }

    /// Whether `path` has been entered already.
    pub fn contains(&self, path: &Vec<char>) -> (r: bool)
        ensures
            r == self@.contains(path@),
    {
        let mut i: usize = 0;
        while i < self.paths.len()
            invariant
                i <= self.paths@.len(),
                forall|j: int| 0 <= j < i ==> views_of(self.paths@)[j] != path@,
            decreases self.paths@.len() - i,
        {
            if chars_eq(&self.paths[i], path) {
                proof {
                    assert(views_of(self.paths@)[i as int] == path@);
                }
                return true;
            }
            i = i + 1;
        }
        proof {
            assert(!views_of(self.paths@).contains(path@));
        }
        false
    }

    /// Marks `path` as entered.
    pub fn insert(&mut self, path: Vec<char>)
        ensures
            final(self)@ == old(self)@.insert(path@),
    {
        let ghost pre = views_of(self.paths@);
        self.paths.push(path);
        proof {
            assert(views_of(self.paths@) =~= pre.push(path@));
            assert forall|q: Seq<char>| #[trigger] self@.contains(q) <==> old(self)@.insert(
                path@,
            ).contains(q) by {
                if pre.push(path@).contains(q) {
                    let k = choose|k: int| 0 <= k < pre.push(path@).len() && pre.push(path@)[k]
                        == q;
                    if k < pre.len() {
                        assert(pre[k] == q);
                    }
                }
                if pre.contains(q) {
                    let k = choose|k: int| 0 <= k < pre.len() && pre[k] == q;
                    assert(pre.push(path@)[k] == q);
                }
                if q == path@ {
                    assert(pre.push(path@)[pre.len() as int] == q);
                }
            }
            assert(self@ =~= old(self)@.insert(path@));
        }
    }
}

/// What the caller knows about one file: its text split into lines, or the
/// fact that its bytes are not valid text.
pub enum FileEntry {
    Text(Vec<String>),
    NotUtf8,
}

/// The mathematical shape of a file entry.
pub enum FileModel {
    Text(Seq<Seq<char>>),
    NotUtf8,
}

impl View for FileEntry {
    type V = FileModel;

    open spec fn view(&self) -> FileModel {
        match self {
            FileEntry::Text(lines) => FileModel::Text(views_of(lines@)),
            FileEntry::NotUtf8 => FileModel::NotUtf8,
        }
    }
}

/// What a file path resolves to: the first entry with that path.
pub open spec fn spec_file_lookup(t: Seq<(Seq<char>, FileModel)>, path: Seq<char>) -> Option<
    FileModel,
>
    decreases t.len(),
{
    if t.len() == 0 {
        None
    } else if t[0].0 == path {
        Some(t[0].1)
    } else {
        spec_file_lookup(t.drop_first(), path)
    }
}

/// The source files a run may read, keyed by the path the engine resolves:
/// the base directory joined with the included name. The engine never
/// touches the file system; the caller fills this map.
pub struct FileMap {
    entries: Vec<(String, FileEntry)>,
}

impl View for FileMap {
    type V = Seq<(Seq<char>, FileModel)>;

    closed spec fn view(&self) -> Seq<(Seq<char>, FileModel)> {
        Seq::new(self.entries@.len(), |i: int| (self.entries@[i].0@, self.entries@[i].1@))
    }
}

/// The set of paths the map holds.
pub open spec fn spec_file_paths(t: Seq<(Seq<char>, FileModel)>) -> Set<Seq<char>> {
    Seq::new(t.len(), |i: int| t[i].0).to_set()
}

impl FileMap {
    /// A map with no files.
    pub fn new() -> (r: FileMap)
        ensures
            r@.len() == 0,
    {
        FileMap { entries: Vec::new() }
    }

    /// Adds a text file under `path`, given as its lines.
    pub fn add_file(&mut self, path: String, lines: Vec<String>)
        ensures
            final(self)@ == old(self)@.push((path@, FileModel::Text(views_of(lines@)))),
    {
        let ghost pre = self@;
        self.entries.push((path, FileEntry::Text(lines)));
        proof {
            assert(self@ =~= pre.push((path@, FileModel::Text(views_of(lines@)))));
        }
    }

    /// Records that the file under `path` exists but is not valid text.
    pub fn add_not_utf8(&mut self, path: String)
        ensures
            final(self)@ == old(self)@.push((path@, FileModel::NotUtf8)),
    {
        let ghost pre = self@;
        self.entries.push((path, FileEntry::NotUtf8));
        proof {
            assert(self@ =~= pre.push((path@, FileModel::NotUtf8)));
        }
    }

    /// The entry stored under `path`, if any.
    pub fn get(&self, path: &Vec<char>) -> (r: Option<&FileEntry>)
        ensures
            match r {
                Some(e) => spec_file_lookup(self@, path@) == Some(e@),
                None => spec_file_lookup(self@, path@) is None,
            },
    {
        let mut i: usize = 0;
        while i < self.entries.len()
            invariant
                i <= self@.len(),
                self@.len() == self.entries@.len(),
                forall|j: int| 0 <= j < i ==> self@[j].0 != path@,
            decreases self@.len() - i,
        {
            let key = str_to_chars(self.entries[i].0.as_str());
            if chars_eq(&key, path) {
                proof {
                    lemma_file_lookup_found(self@, path@, i as int);
                }
                return Some(&self.entries[i].1);
            }
            i = i + 1;
        }
        proof {
            lemma_file_lookup_absent(self@, path@);
        }
        None
    }
}

proof fn lemma_file_lookup_found(t: Seq<(Seq<char>, FileModel)>, path: Seq<char>, i: int)
    requires
        0 <= i < t.len(),
        t[i].0 == path,
        forall|j: int| 0 <= j < i ==> t[j].0 != path,
    ensures
        spec_file_lookup(t, path) == Some(t[i].1),
    decreases t.len(),
{
    if i > 0 {
        lemma_file_lookup_found(t.drop_first(), path, i - 1);
    }
}

proof fn lemma_file_lookup_absent(t: Seq<(Seq<char>, FileModel)>, path: Seq<char>)
    requires
        forall|j: int| 0 <= j < t.len() ==> t[j].0 != path,
    ensures
        spec_file_lookup(t, path) is None,
    decreases t.len(),
{
    if t.len() > 0 {
        lemma_file_lookup_absent(t.drop_first(), path);
    }
}

/// A found file's path is one of the map's paths.
pub proof fn lemma_file_lookup_in_paths(t: Seq<(Seq<char>, FileModel)>, path: Seq<char>)
    requires
        spec_file_lookup(t, path) is Some,
    ensures
        spec_file_paths(t).contains(path),
    decreases t.len(),
{
    if t.len() > 0 {
        if t[0].0 == path {
            assert(Seq::new(t.len(), |i: int| t[i].0)[0] == path);
        } else {
            lemma_file_lookup_in_paths(t.drop_first(), path);
            let inner = Seq::new(t.drop_first().len(), |i: int| t.drop_first()[i].0);
            let k = choose|k: int| 0 <= k < inner.len() && inner[k] == path;
            assert(Seq::new(t.len(), |i: int| t[i].0)[k + 1] == path);
        }
    }
}

/// Removing an entry whose key is not `o` leaves the lookup of `o` alone,
/// provided no earlier entry shares that removed key either.
proof fn lemma_lookup_remove(pre: Seq<(Seq<char>, DefModel)>, i: int, o: Seq<char>)
    requires
        0 <= i < pre.len(),
        pre[i].0 != o,
    ensures
        spec_lookup(pre.remove(i), o) == spec_lookup(pre, o),
    decreases pre.len(),
{
    if i == 0 {
        assert(pre.remove(0) =~= pre.drop_first());
    } else {
        assert(pre.remove(i).drop_first() =~= pre.drop_first().remove(i - 1));
        assert(pre.remove(i)[0] == pre[0]);
        if pre[0].0 != o {
            lemma_lookup_remove(pre.drop_first(), i - 1, o);
        }
    }
}

} // verus!
