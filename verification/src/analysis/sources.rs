//! The functions and the sources that an analysis knows.

use vstd::prelude::*;

use ropey::Rope;

use crate::chars::same;
use crate::rope::{rope_chars, rope_clone, rope_from_str};
use crate::syntax::{Function, FunctionView};

verus! {

/// A function under the name by which it is visible, with its documentation.
#[derive(Debug)]
pub struct NamedFunction {
    pub name: String,
    pub function: Function,
    pub documentation: String,
}

/// What a [`NamedFunction`] says.
pub struct NamedView {
    pub name: Seq<char>,
    pub function: FunctionView,
    pub documentation: Seq<char>,
}

impl View for NamedFunction {
    type V = NamedView;

    open spec fn view(&self) -> NamedView {
        NamedView {
            name: self.name@,
            function: self.function@,
            documentation: self.documentation@,
        }
    }
}

/// The functions that are visible, each under one name.
#[derive(Debug)]
pub struct Functions {
    entries: Vec<NamedFunction>,
}

impl View for Functions {
    type V = Seq<NamedView>;

    closed spec fn view(&self) -> Seq<NamedView> {
        Seq::new(self.entries@.len(), |i: int| self.entries@[i]@)
    }
}

/// The index of the first entry with a name, or the number of entries where there is none.
pub open spec fn index_of(entries: Seq<NamedView>, name: Seq<char>) -> int
    decreases entries.len(),
{
    if entries.len() == 0 || entries[0].name == name {
        0
    } else {
        1 + index_of(entries.drop_first(), name)
    }
}

/// The entry with a name.
pub open spec fn entry_of(entries: Seq<NamedView>, name: Seq<char>) -> Option<NamedView> {
    if index_of(entries, name) < entries.len() {
        Some(entries[index_of(entries, name)])
    } else {
        None
    }
}

/// The function with a name.
pub open spec fn function_of(entries: Seq<NamedView>, name: Seq<char>) -> Option<FunctionView> {
    match entry_of(entries, name) {
        Some(entry) => Some(entry.function),
        None => None,
    }
}

/// The entries with one more: it takes the place of the entry with its name, or comes last.
pub open spec fn with_entry(entries: Seq<NamedView>, entry: NamedView) -> Seq<NamedView> {
    let at = index_of(entries, entry.name);
    if at < entries.len() {
        entries.update(at, entry)
    } else {
        entries.push(entry)
    }
}

/// Whether no name occurs twice.
pub open spec fn names_differ(entries: Seq<NamedView>) -> bool {
    forall|i: int, j: int|
        0 <= i < j < entries.len() ==> #[trigger] entries[i].name != #[trigger] entries[j].name
}

/// The first entry with a name stands at its index, and no entry before it has the name.
pub proof fn lemma_index_of(entries: Seq<NamedView>, name: Seq<char>)
    ensures
        0 <= index_of(entries, name) <= entries.len(),
        index_of(entries, name) < entries.len() ==> entries[index_of(entries, name)].name == name,
        forall|k: int| 0 <= k < index_of(entries, name) ==> (#[trigger] entries[k]).name != name,
    decreases entries.len(),
{
    if entries.len() > 0 && entries[0].name != name {
        let rest = entries.drop_first();
        lemma_index_of(rest, name);
        assert forall|k: int| 0 <= k < index_of(entries, name) implies (#[trigger] entries[k]).name
            != name by {
            if k > 0 {
                assert(rest[k - 1].name != name);
            }
        }
    }
}

/// A name given to a function is found again, the other names keep theirs, and no name comes to
/// occur twice.
pub proof fn law_named_function_is_found(entries: Seq<NamedView>, entry: NamedView, other: Seq<char>)
    requires
        names_differ(entries),
    ensures
        names_differ(with_entry(entries, entry)),
        entry_of(with_entry(entries, entry), entry.name) == Some(entry),
        other != entry.name ==> entry_of(with_entry(entries, entry), other) == entry_of(
            entries,
            other,
        ),
{
    let after = with_entry(entries, entry);
    lemma_index_of(entries, entry.name);
    lemma_index_of(after, entry.name);
    lemma_index_of(entries, other);
    lemma_index_of(after, other);
    let at = index_of(entries, entry.name);
    assert(after[at] == entry);
    let found = index_of(after, entry.name);
    if found != at {
        assert(after[found].name == entry.name);
        assert(found < at);
        assert(entries[found].name != entry.name);
    }
    if other != entry.name {
        let i = index_of(entries, other);
        let j = index_of(after, other);
        if i < entries.len() {
            assert(after[i] == entries[i]);
            if j < i {
                assert(after[j].name == other);
                assert(entries[j].name != other);
            }
        } else if j < after.len() {
            assert(after[j].name == other);
            if j < entries.len() {
                assert(entries[j].name != other);
            }
        }
    }
    assert forall|i: int, j: int| 0 <= i < j < after.len() implies #[trigger] after[i].name
        != #[trigger] after[j].name by {
        if i < entries.len() {
            assert(i == at || after[i] == entries[i]);
        }
        if j < entries.len() {
            assert(j == at || after[j] == entries[j]);
        }
        if i == at && j < entries.len() {
            assert(entries[i].name != entries[j].name);
        } else if j == at && i < entries.len() && j < entries.len() {
            assert(entries[i].name != entries[j].name);
        } else if j == at {
            assert(entries[i].name != entry.name);
        }
    }
}

impl Functions {
    pub fn new() -> (r: Functions)
        ensures
            r@ == Seq::<NamedView>::empty(),
    {
        let r = Functions { entries: Vec::new() };
        assert(r@ =~= Seq::<NamedView>::empty());
        r
    }

    /// The index of the first entry with a name.
    fn find(&self, name: &str) -> (r: Option<usize>)
        ensures
            match r {
                Some(i) => i == index_of(self@, name@) && i < self.entries@.len(),
                None => index_of(self@, name@) == self@.len(),
            },
    {
        let mut i: usize = 0;
        assert(self@.skip(0) == self@);
        while i < self.entries.len()
            invariant
                i <= self.entries@.len(),
                index_of(self@, name@) == i + index_of(self@.skip(i as int), name@),
            decreases self.entries@.len() - i,
        {
            assert(self@.skip(i as int)[0] == self.entries@[i as int]@);
            if same(self.entries[i].name.as_str(), name) {
                return Some(i);
            }
            assert(self@.skip(i as int).drop_first() == self@.skip(i + 1));
            i = i + 1;
        }
        None
    }

    /// Gives a function a name, in the place of another function with that name.
    pub fn insert(&mut self, name: String, function: Function, documentation: String)
        ensures
            final(self)@ == with_entry(
                old(self)@,
                NamedView { name: name@, function: function@, documentation: documentation@ },
            ),
    {
        let ghost before = self@;
        let ghost view = NamedView {
            name: name@,
            function: function@,
            documentation: documentation@,
        };
        match self.find(name.as_str()) {
            Some(i) => {
                let entry = NamedFunction { name, function, documentation };
                self.entries.set(i, entry);
                assert(self@ =~= before.update(i as int, view));
            },
            None => {
                let entry = NamedFunction { name, function, documentation };
                self.entries.push(entry);
                assert(self@ =~= before.push(view));
            },
        }
    }

    /// The function with a name and its documentation.
    pub fn get(&self, name: &str) -> (r: Option<(&Function, &str)>)
        ensures
            match r {
                Some((function, documentation)) => match entry_of(self@, name@) {
                    Some(entry) => function@ == entry.function && documentation@
                        == entry.documentation,
                    None => false,
                },
                None => entry_of(self@, name@) is None,
            },
    {
        match self.find(name) {
            Some(i) => {
                let entry: &NamedFunction = &self.entries[i];
                Some((&entry.function, entry.documentation.as_str()))
            },
            None => None,
        }
    }

    /// The function with a name.
    pub fn get_func(&self, name: &str) -> (r: Option<&Function>)
        ensures
            match r {
                Some(function) => function_of(self@, name@) == Some(function@),
                None => function_of(self@, name@) is None,
            },
    {
        match self.find(name) {
            Some(i) => Some(&self.entries[i].function),
            None => None,
        }
    }

    /// The number of names.
    pub fn len(&self) -> (n: usize)
        ensures
            n == self@.len(),
    {
        self.entries.len()
    }

    /// The function at an index, in the order in which the names were first given.
    pub fn function_at(&self, i: usize) -> (r: &Function)
        requires
            i < self@.len(),
        ensures
            r@ == self@[i as int].function,
    {
        &self.entries[i].function
    }

    /// All visible functions, one for each name.
    pub fn functions(&self) -> (r: Vec<&Function>)
        ensures
            r@.len() == self@.len(),
            forall|i: int| 0 <= i < r@.len() ==> (#[trigger] r@[i])@ == self@[i].function,
    {
        let mut r: Vec<&Function> = Vec::new();
        let mut i: usize = 0;
        while i < self.entries.len()
            invariant
                i <= self.entries@.len(),
                r@.len() == i,
                forall|k: int| 0 <= k < i ==> (#[trigger] r@[k])@ == self@[k].function,
            decreases self.entries@.len() - i,
        {
            r.push(&self.entries[i].function);
            i = i + 1;
        }
        r
    }

    /// All visible functions with their documentation.
    pub fn functions_and_docs(&self) -> (r: Vec<(&Function, &str)>)
        ensures
            r@.len() == self@.len(),
            forall|i: int|
                0 <= i < r@.len() ==> (#[trigger] r@[i]).0@ == self@[i].function && r@[i].1@
                    == self@[i].documentation,
    {
        let mut r: Vec<(&Function, &str)> = Vec::new();
        let mut i: usize = 0;
        while i < self.entries.len()
            invariant
                i <= self.entries@.len(),
                r@.len() == i,
                forall|k: int|
                    0 <= k < i ==> (#[trigger] r@[k]).0@ == self@[k].function && r@[k].1@
                        == self@[k].documentation,
            decreases self.entries@.len() - i,
        {
            let entry: &NamedFunction = &self.entries[i];
            r.push((&entry.function, entry.documentation.as_str()));
            i = i + 1;
        }
        r
    }
}

/// A source of the compiler, as the editor names it and with the text that positions refer to.
#[derive(Debug)]
pub struct SourceDocument {
    pub uri: String,
    pub text: Rope,
}

/// What a [`SourceDocument`] says.
pub struct SourceView {
    pub uri: Seq<char>,
    pub text: Seq<char>,
}

impl View for SourceDocument {
    type V = SourceView;

    open spec fn view(&self) -> SourceView {
        SourceView { uri: self.uri@, text: rope_chars(self.text) }
    }
}

/// A source as the compiler hands it out: its number, its URI and its text.
#[derive(Debug)]
pub struct CompilerSource {
    pub file_id: usize,
    pub uri: String,
    pub content: String,
}

/// The sources of a program by their numbers: the root, and the others that the compiler hands out.
pub open spec fn compiler_sources(
    sources: Seq<CompilerSource>,
    root: SourceView,
) -> Map<nat, SourceView>
    decreases sources.len(),
{
    if sources.len() == 0 {
        Map::empty().insert(0, root)
    } else {
        let source = sources.last();
        let before = compiler_sources(sources.drop_last(), root);
        if source.file_id == 0 {
            before
        } else {
            before.insert(
                source.file_id as nat,
                SourceView { uri: source.uri@, text: source.content@ },
            )
        }
    }
}

/// Every source that takes part in an analysis, by the number that spans refer to. The root has the
/// number zero.
#[derive(Debug)]
pub struct SourceSet {
    root: SourceDocument,
    others: Vec<(usize, SourceDocument)>,
}

/// A root and other sources by their numbers; of two with one number the later counts.
spec fn numbered(root: SourceView, others: Seq<(usize, SourceDocument)>) -> Map<nat, SourceView>
    decreases others.len(),
{
    if others.len() == 0 {
        Map::empty().insert(0, root)
    } else if others.last().0 == 0 {
        numbered(root, others.drop_last())
    } else {
        numbered(root, others.drop_last()).insert(others.last().0 as nat, others.last().1@)
    }
}

proof fn lemma_numbered_root(root: SourceView, others: Seq<(usize, SourceDocument)>)
    ensures
        numbered(root, others).dom().contains(0),
        numbered(root, others)[0] == root,
    decreases others.len(),
{
    if others.len() > 0 {
        lemma_numbered_root(root, others.drop_last());
    }
}

impl View for SourceSet {
    type V = Map<nat, SourceView>;

    closed spec fn view(&self) -> Map<nat, SourceView> {
        numbered(self.root@, self.others@)
    }
}

impl SourceDocument {
    /// A copy of this source.
    pub fn copy(&self) -> (r: SourceDocument)
        ensures
            r@ == self@,
    {
        SourceDocument { uri: self.uri.clone(), text: rope_clone(&self.text) }
    }
}

impl SourceSet {
    /// The set that holds the root alone.
    pub fn root(uri: String, text: Rope) -> (r: SourceSet)
        ensures
            r@ == Map::<nat, SourceView>::empty().insert(
                0,
                SourceView { uri: uri@, text: rope_chars(text) },
            ),
    {
        SourceSet { root: SourceDocument { uri, text }, others: Vec::new() }
    }

    /// The source with a number.
    pub fn get(&self, file_id: usize) -> (r: Option<&SourceDocument>)
        ensures
            match r {
                Some(source) => self@.dom().contains(file_id as nat) && self@[file_id as nat]
                    == source@,
                None => !self@.dom().contains(file_id as nat),
            },
    {
        proof {
            lemma_numbered_root(self.root@, self.others@);
        }
        if file_id == 0 {
            return Some(&self.root);
        }
        let mut n: usize = self.others.len();
        assert(self.others@.take(n as int) == self.others@);
        while n > 0
            invariant
                n <= self.others@.len(),
                file_id != 0,
                self@.dom().contains(file_id as nat) == numbered(
                    self.root@,
                    self.others@.take(n as int),
                ).dom().contains(file_id as nat),
                self@[file_id as nat] == numbered(
                    self.root@,
                    self.others@.take(n as int),
                )[file_id as nat],
            decreases n,
        {
            assert(self.others@.take(n as int).drop_last() == self.others@.take(n - 1));
            if self.others[n - 1].0 == file_id {
                return Some(&self.others[n - 1].1);
            }
            n = n - 1;
        }
        None
    }

    /// The root, which is in every set.
    pub fn root_source(&self) -> (r: &SourceDocument)
        ensures
            self@.dom().contains(0),
            r@ == self@[0],
    {
        proof {
            lemma_numbered_root(self.root@, self.others@);
        }
        &self.root
    }

    /// The sources of a program: the root as the editor knows it, and the others as the compiler
    /// hands them out.
    pub fn from_compiler(sources: &Vec<CompilerSource>, root: &SourceDocument) -> (r: SourceSet)
        ensures
            r@ == compiler_sources(sources@, root@),
    {
        let mut others: Vec<(usize, SourceDocument)> = Vec::new();
        let mut i: usize = 0;
        while i < sources.len()
            invariant
                i <= sources@.len(),
                numbered(root@, others@) == compiler_sources(sources@.take(i as int), root@),
            decreases sources@.len() - i,
        {
            let source: &CompilerSource = &sources[i];
            assert(sources@.take(i + 1).drop_last() == sources@.take(i as int));
            if source.file_id != 0 {
                let ghost before = others@;
                others.push(
                    (
                        source.file_id,
                        SourceDocument {
                            uri: source.uri.clone(),
                            text: rope_from_str(source.content.as_str()),
                        },
                    ),
                );
                assert(others@.drop_last() == before);
            }
            i = i + 1;
        }
        assert(sources@.take(i as int) == sources@);
        SourceSet { root: root.copy(), others }
    }

    /// The number of sources.
    pub fn len(&self) -> (n: usize)
        ensures
            self@.dom().len() <= usize::MAX ==> n == self@.dom().len(),
    {
        let mut seen: Vec<usize> = Vec::new();
        let mut i: usize = 0;
        while i < self.others.len()
            invariant
                i <= self.others@.len(),
                numbered(self.root@, self.others@.take(i as int)).dom() == source_ids(seen@),
                source_ids(seen@).finite(),
                source_ids(seen@).len() == 1 + seen@.len(),
            decreases self.others@.len() - i,
        {
            let id: usize = self.others[i].0;
            assert(self.others@.take(i + 1).drop_last() == self.others@.take(i as int));
            let mut known: bool = id == 0;
            let mut k: usize = 0;
            while k < seen.len() && !known
                invariant
                    k <= seen@.len(),
                    known ==> id == 0 || exists|m: int| 0 <= m < seen@.len() && seen@[m] == id,
                    !known ==> id != 0 && forall|m: int| 0 <= m < k ==> seen@[m] != id,
                decreases seen@.len() - k,
            {
                if seen[k] == id {
                    known = true;
                }
                k = k + 1;
            }
            proof {
                lemma_source_ids(seen@, id as nat);
            }
            if !known {
                let ghost before = seen@;
                seen.push(id);
                assert(seen@.drop_last() == before);
            } else if id != 0 {
                assert(source_ids(seen@).insert(id as nat) =~= source_ids(seen@));
            }
            i = i + 1;
        }
        assert(self.others@.take(i as int) == self.others@);
        1usize.saturating_add(seen.len())
    }
}

/// The numbers of the root and of some other sources.
spec fn source_ids(others: Seq<usize>) -> Set<nat>
    decreases others.len(),
{
    if others.len() == 0 {
        Set::empty().insert(0)
    } else {
        source_ids(others.drop_last()).insert(others.last() as nat)
    }
}

proof fn lemma_source_ids(others: Seq<usize>, id: nat)
    ensures
        source_ids(others).contains(id) <==> id == 0 || exists|i: int|
            0 <= i < others.len() && others[i] == id,
    decreases others.len(),
{
    if others.len() > 0 {
        lemma_source_ids(others.drop_last(), id);
        assert forall|i: int| 0 <= i < others.len() - 1 implies others.drop_last()[i] == others[i] by {}
        if exists|i: int| 0 <= i < others.len() && others[i] == id {
            let i = choose|i: int| 0 <= i < others.len() && others[i] == id;
            if i < others.len() - 1 {
                assert(others.drop_last()[i] == id);
            }
        }
    }
}

} // verus!
