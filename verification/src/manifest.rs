//! The project manifest and the lockfile, as values.
//!
//! Reading and writing the two files is left to the caller; what is here is
//! the cleaning of file content before it is parsed, the two documents, and
//! the operations that add, remove and list their entries.

use crate::depmap::{
    distinct_keys, has_key, lemma_map_of_at, lemma_map_of_push, lemma_map_of_remove,
    lemma_map_of_update, map_of, position_of, put, put_all, DepMap, Pair,
};
use crate::text::{chars_of, text_between};
use vstd::prelude::*;

verus! {

/// The byte-order mark.
pub const BOM: char = '\u{FEFF}';

/// Whether `c` has the Unicode property White_Space.
pub open spec fn is_space(c: char) -> bool {
    let u = c as u32;
    ||| 0x09 <= u <= 0x0D
    ||| u == 0x20
    ||| u == 0x85
    ||| u == 0xA0
    ||| u == 0x1680
    ||| 0x2000 <= u <= 0x200A
    ||| u == 0x2028
    ||| u == 0x2029
    ||| u == 0x202F
    ||| u == 0x205F
    ||| u == 0x3000
}

/// Whether `c` is the byte-order mark.
pub open spec fn is_bom(c: char) -> bool {
    c == BOM
}

/// `s` without its longest prefix of characters that meet `p`.
pub open spec fn drop_leading(s: Seq<char>, p: spec_fn(char) -> bool) -> Seq<char>
    decreases s.len(),
{
    if s.len() > 0 && p(s[0]) {
        drop_leading(s.drop_first(), p)
    } else {
        s
    }
}

/// `s` without its longest suffix of characters that meet `p`.
pub open spec fn drop_trailing(s: Seq<char>, p: spec_fn(char) -> bool) -> Seq<char>
    decreases s.len(),
{
    if s.len() > 0 && p(s.last()) {
        drop_trailing(s.drop_last(), p)
    } else {
        s
    }
}

/// File content made ready for parsing: byte-order marks at the start are
/// gone, then the white space on both sides.
pub open spec fn cleaned(s: Seq<char>) -> Seq<char> {
    drop_trailing(
        drop_leading(drop_leading(s, |c: char| is_bom(c)), |c: char| is_space(c)),
        |c: char| is_space(c),
    )
}

/// Whether `c` is white space.
pub fn is_whitespace(c: char) -> (space: bool)
    ensures
        space == is_space(c),
{
    let u = c as u32;
    (0x09 <= u && u <= 0x0D) || u == 0x20 || u == 0x85 || u == 0xA0 || u == 0x1680 || (0x2000 <= u
        && u <= 0x200A) || u == 0x2028 || u == 0x2029 || u == 0x202F || u == 0x205F || u == 0x3000
}

/// Strips byte-order marks from the start of `content` and trims white
/// space from both ends.
pub fn clean_json_content(content: String) -> (out: String)
    ensures
        out@ == cleaned(content@),
{
    let chars = chars_of(content.as_str());
    let n = chars.len();
    let ghost s = content@;
    let ghost bom = |c: char| is_bom(c);
    let ghost space = |c: char| is_space(c);
    let mut start: usize = 0;
    assert(s.skip(0) =~= s);
    while start < n && chars[start] == BOM
        invariant
            start <= n,
            n == s.len(),
            chars@ == s,
            bom == (|c: char| is_bom(c)),
            drop_leading(s, bom) == drop_leading(s.skip(start as int), bom),
        decreases n - start,
    {
        assert(s.skip(start as int).drop_first() =~= s.skip(start as int + 1));
        start += 1;
    }
    let ghost first = start;
    assert(drop_leading(s, bom) == s.skip(first as int));
    while start < n && is_whitespace(chars[start])
        invariant
            first <= start <= n,
            n == s.len(),
            chars@ == s,
            space == (|c: char| is_space(c)),
            drop_leading(s.skip(first as int), space) == drop_leading(s.skip(start as int), space),
        decreases n - start,
    {
        assert(s.skip(start as int).drop_first() =~= s.skip(start as int + 1));
        start += 1;
    }
    assert(drop_leading(s.skip(first as int), space) == s.skip(start as int));
    let mut end: usize = n;
    assert(s.subrange(start as int, n as int) =~= s.skip(start as int));
    while end > start && is_whitespace(chars[end - 1])
        invariant
            start <= end <= n,
            n == s.len(),
            chars@ == s,
            space == (|c: char| is_space(c)),
            drop_trailing(s.skip(start as int), space) == drop_trailing(
                s.subrange(start as int, end as int),
                space,
            ),
        decreases end,
    {
        assert(s.subrange(start as int, end as int).drop_last() =~= s.subrange(
            start as int,
            end as int - 1,
        ));
        end -= 1;
    }
    text_between(&chars, start, end)
}

/// The project manifest.
pub struct PackageJson {
    pub name: String,
    pub version: String,
    pub scripts: DepMap,
    pub dependencies: DepMap,
    pub dev_dependencies: DepMap,
    pub workspaces: Option<Vec<String>>,
}

impl PackageJson {
    /// No name is both a runtime and a development dependency.
    pub open spec fn exclusive(&self) -> bool {
        self.dependencies@.dom().disjoint(self.dev_dependencies@.dom())
    }

    /// The manifest has a name, and no name is listed on both sides.
    pub open spec fn well_formed(&self) -> bool {
        self.name@.len() > 0 && self.exclusive()
    }

    /// Every field but the two dependency tables is as in `other`.
    pub open spec fn same_header(&self, other: &PackageJson) -> bool {
        &&& self.name == other.name
        &&& self.version == other.version
        &&& self.scripts == other.scripts
        &&& self.workspaces == other.workspaces
    }

    /// Lists `name` as a runtime dependency with the constraint `version`;
    /// a development entry of that name is taken out.
    pub fn add_dependency(&mut self, name: String, version: String)
        ensures
            final(self).dependencies@ == old(self).dependencies@.insert(name@, version@),
            final(self).dependencies.pairs() == put(old(self).dependencies.pairs(), name@, version@),
            final(self).dev_dependencies@ == old(self).dev_dependencies@.remove(name@),
            final(self).same_header(old(self)),
            old(self).exclusive() ==> final(self).exclusive(),
    {
        self.dev_dependencies.remove(name.as_str());
        self.dependencies.insert(name, version);
    }

    /// Lists `name` as a development dependency with the constraint
    /// `version`; a runtime entry of that name is taken out.
    pub fn add_dev_dependency(&mut self, name: String, version: String)
        ensures
            final(self).dev_dependencies@ == old(self).dev_dependencies@.insert(name@, version@),
            final(self).dev_dependencies.pairs() == put(
                old(self).dev_dependencies.pairs(),
                name@,
                version@,
            ),
            final(self).dependencies@ == old(self).dependencies@.remove(name@),
            final(self).same_header(old(self)),
            old(self).exclusive() ==> final(self).exclusive(),
    {
        self.dependencies.remove(name.as_str());
        self.dev_dependencies.insert(name, version);
    }

    /// Takes `name` out of the runtime dependencies and gives back its constraint.
    pub fn remove_dependency(&mut self, name: &str) -> (former: Option<String>)
        ensures
            final(self).dependencies@ == old(self).dependencies@.remove(name@),
            final(self).dev_dependencies == old(self).dev_dependencies,
            final(self).same_header(old(self)),
            former is Some <==> old(self).dependencies@.dom().contains(name@),
            former matches Some(v) ==> v@ == old(self).dependencies@[name@],
            old(self).exclusive() ==> final(self).exclusive(),
    {
        self.dependencies.remove(name)
    }

    /// Runtime and development dependencies in one table: the runtime
    /// entries first, then the development entries.
    pub fn get_all_dependencies(&self) -> (all: DepMap)
        ensures
            all@ == self.dependencies@.union_prefer_right(self.dev_dependencies@),
            all.pairs() == put_all(self.dependencies.pairs(), self.dev_dependencies.pairs()),
    {
        let mut all = self.dependencies.clone();
        all.extend(&self.dev_dependencies);
        all
    }
}

/// A project manifest that could not be read.
pub struct ManifestError {
    /// What the parser said.
    pub reason: String,
    /// The content that was handed to the parser.
    pub content: String,
}

/// The sentence that reports a manifest that could not be read.
pub open spec fn manifest_failure(reason: Seq<char>, content: Seq<char>) -> Seq<char> {
    "Failed to parse package.json: "@ + reason + " (Content: '"@ + content + "')"@
}

impl ManifestError {
    /// A sentence that says what went wrong, with the offending content.
    pub fn message(&self) -> (text: String)
        ensures
            text@ == manifest_failure(self.reason@, self.content@),
    {
        let mut text = String::from_str("Failed to parse package.json: ");
        text.append(self.reason.as_str());
        text.append(" (Content: '");
        text.append(self.content.as_str());
        text.append("')");
        text
    }
}

impl PackageJson {
    /// Whether this is the manifest that stands for a missing file.
    pub open spec fn is_empty_manifest(&self) -> bool {
        &&& self.name@ == Seq::<char>::empty()
        &&& self.version@ == Seq::<char>::empty()
        &&& self.scripts@ == Map::<Seq<char>, Seq<char>>::empty()
        &&& self.dependencies@ == Map::<Seq<char>, Seq<char>>::empty()
        &&& self.dev_dependencies@ == Map::<Seq<char>, Seq<char>>::empty()
        &&& self.workspaces is None
    }

    /// The manifest of the project, from what reading its file gave:
    /// `file` is `None` where there is no file, else what the parser made
    /// of the cleaned content `content`, or the reason why it failed. A
    /// missing file stands for the empty manifest; a file that cannot be
    /// read is an error that carries its content.
    pub fn load(file: Option<Result<PackageJson, String>>, content: &str) -> (outcome: Result<
        PackageJson,
        ManifestError,
    >)
        ensures
            match file {
                None => outcome is Ok && outcome->Ok_0.is_empty_manifest(),
                Some(Ok(manifest)) => outcome == Ok::<PackageJson, ManifestError>(manifest),
                Some(Err(reason)) => outcome is Err && outcome->Err_0.reason@ == reason@
                    && outcome->Err_0.content@ == content@,
            },
    {
        match file {
            None => Ok(PackageJson::default()),
            Some(Ok(manifest)) => Ok(manifest),
            Some(Err(reason)) => Err(ManifestError { reason, content: String::from_str(content) }),
        }
    }
}

/// The constraint that is written into the manifest for a package that
/// was installed at `version`: every later version that is compatible with it.
pub open spec fn compatible_with(version: Seq<char>) -> Seq<char> {
    seq!['^'] + version
}

impl PackageJson {
    /// A manifest with the given parts. Where a name is listed on both
    /// sides, it stays a runtime dependency.
    pub fn assemble(
        name: String,
        version: String,
        scripts: DepMap,
        dependencies: DepMap,
        dev_dependencies: DepMap,
        workspaces: Option<Vec<String>>,
    ) -> (manifest: PackageJson)
        ensures
            manifest.name == name,
            manifest.version == version,
            manifest.scripts == scripts,
            manifest.workspaces == workspaces,
            manifest.dependencies == dependencies,
            manifest.dev_dependencies@ == dev_dependencies@.remove_keys(dependencies@.dom()),
            manifest.exclusive(),
    {
        let mut kept = DepMap::new();
        let ghost listed = dev_dependencies.pairs();
        let mut i: usize = 0;
        assert(kept@ =~= map_of(listed.take(0)).remove_keys(dependencies@.dom())) by {
            assert(map_of(listed.take(0)) =~= Map::<Seq<char>, Seq<char>>::empty());
        }
        proof {
            use_type_invariant(&dev_dependencies);
        }
        while i < dev_dependencies.len()
            invariant
                i <= listed.len(),
                listed == dev_dependencies.pairs(),
                distinct_keys(listed),
                kept@ == map_of(listed.take(i as int)).remove_keys(dependencies@.dom()),
            decreases listed.len() - i,
        {
            let key = dev_dependencies.key_at(i);
            proof {
                let front = listed.take(i as int);
                let next = listed.take(i as int + 1);
                assert(next =~= front.push(listed[i as int]));
                assert forall|a: int, b: int|
                    0 <= a < front.len() && 0 <= b < front.len() && a != b implies #[trigger] front[a].0
                    != #[trigger] front[b].0 by {
                    assert(listed[a].0 != listed[b].0);
                }
                if has_key(front, listed[i as int].0) {
                    let p = position_of(front, listed[i as int].0);
                    assert(listed[p].0 != listed[i as int].0);
                }
                lemma_map_of_push(front, listed[i as int].0, listed[i as int].1);
                let wider = map_of(front).insert(listed[i as int].0, listed[i as int].1);
                if dependencies@.dom().contains(key@) {
                    assert(wider.remove_keys(dependencies@.dom()) =~= map_of(front).remove_keys(
                        dependencies@.dom(),
                    ));
                } else {
                    assert(wider.remove_keys(dependencies@.dom()) =~= map_of(front).remove_keys(
                        dependencies@.dom(),
                    ).insert(listed[i as int].0, listed[i as int].1));
                }
            }
            if !dependencies.contains_key(key.as_str()) {
                kept.insert(key.clone(), dev_dependencies.value_at(i).clone());
            }
            i += 1;
        }
        assert(listed.take(listed.len() as int) =~= listed);
        PackageJson {
            name,
            version,
            scripts,
            dependencies,
            dev_dependencies: kept,
            workspaces,
        }
    }

    /// Lists the package `name`, installed at `version`, with the
    /// constraint for what is compatible with that version: as a
    /// development dependency if `dev` says so, else as a runtime dependency.
    pub fn record_install(&mut self, name: String, version: &str, dev: bool)
        ensures
            final(self).same_header(old(self)),
            old(self).exclusive() ==> final(self).exclusive(),
            dev ==> final(self).dev_dependencies@ == old(self).dev_dependencies@.insert(
                name@,
                compatible_with(version@),
            ) && final(self).dependencies@ == old(self).dependencies@.remove(name@),
            !dev ==> final(self).dependencies@ == old(self).dependencies@.insert(
                name@,
                compatible_with(version@),
            ) && final(self).dev_dependencies@ == old(self).dev_dependencies@.remove(name@),
    {
        let mut constraint = String::from_str("^");
        proof {
            reveal_strlit("^");
        }
        assert("^"@ =~= seq!['^']);
        constraint.append(version);
        if dev {
            self.add_dev_dependency(name, constraint);
        } else {
            self.add_dependency(name, constraint);
        }
    }
}

impl PackageJson {
    /// Whether the manifest has a name and lists no name on both sides.
    pub fn is_well_formed(&self) -> (sound: bool)
        ensures
            sound == self.well_formed(),
    {
        if self.name.as_str().is_empty() {
            return false;
        }
        let table = &self.dependencies;
        proof {
            use_type_invariant(table);
        }
        let ghost listed = table.pairs();
        let mut i: usize = 0;
        while i < table.len()
            invariant
                table == &self.dependencies,
                listed == table.pairs(),
                distinct_keys(listed),
                i <= listed.len(),
                forall|a: int|
                    0 <= a < i ==> !self.dev_dependencies@.dom().contains(#[trigger] listed[a].0),
            decreases listed.len() - i,
        {
            if self.dev_dependencies.contains_key(table.key_at(i).as_str()) {
                proof {
                    lemma_map_of_at(listed, i as int);
                }
                return false;
            }
            i += 1;
        }
        proof {
            assert forall|name: Seq<char>|
                self.dependencies@.dom().contains(name) implies !self.dev_dependencies@.dom().contains(
            name) by {
                let a = position_of(listed, name);
                assert(listed[a].0 == name);
            }
        }
        true
    }
}

impl Default for PackageJson {
    /// The empty manifest.
    fn default() -> (m: PackageJson)
        ensures
            m.name@ == Seq::<char>::empty(),
            m.version@ == Seq::<char>::empty(),
            m.scripts@ == Map::<Seq<char>, Seq<char>>::empty(),
            m.dependencies@ == Map::<Seq<char>, Seq<char>>::empty(),
            m.dev_dependencies@ == Map::<Seq<char>, Seq<char>>::empty(),
            m.workspaces is None,
    {
        PackageJson {
            name: String::new(),
            version: String::new(),
            scripts: DepMap::new(),
            dependencies: DepMap::new(),
            dev_dependencies: DepMap::new(),
            workspaces: None,
        }
    }
}

impl Clone for PackageJson {
    fn clone(&self) -> (copy: PackageJson)
        ensures
            copy.name@ == self.name@,
            copy.version@ == self.version@,
            copy.scripts.pairs() == self.scripts.pairs(),
            copy.dependencies.pairs() == self.dependencies.pairs(),
            copy.dev_dependencies.pairs() == self.dev_dependencies.pairs(),
            copy.workspaces is Some == self.workspaces is Some,
            copy.workspaces matches Some(w) ==> w@.len() == self.workspaces->0@.len()
                && forall|i: int| 0 <= i < w@.len() ==> w@[i]@ == self.workspaces->0@[i]@,
    {
        let workspaces = match &self.workspaces {
            Some(patterns) => {
                let mut copy: Vec<String> = Vec::new();
                let mut i: usize = 0;
                while i < patterns.len()
                    invariant
                        i <= patterns.len(),
                        copy.len() == i,
                        forall|j: int| 0 <= j < i ==> copy[j]@ == patterns[j]@,
                    decreases patterns.len() - i,
                {
                    copy.push(patterns[i].clone());
                    i += 1;
                }
                Some(copy)
            },
            None => None,
        };
        PackageJson {
            name: self.name.clone(),
            version: self.version.clone(),
            scripts: self.scripts.clone(),
            dependencies: self.dependencies.clone(),
            dev_dependencies: self.dev_dependencies.clone(),
            workspaces,
        }
    }
}

/// The name given to a project that is set up without one.
pub open spec fn starter_name() -> Seq<char> {
    "my-crabby-project"@
}

/// The version given to a project that is set up without one.
pub open spec fn starter_version() -> Seq<char> {
    "1.0.0"@
}

/// The manifest to write where a project has none: `None` where one is
/// present, else a manifest with the starter name and version and nothing else.
pub fn ensure_package_files(manifest_present: bool) -> (fresh: Option<PackageJson>)
    ensures
        fresh is None <==> manifest_present,
        fresh matches Some(m) ==> {
            &&& m.name@ == starter_name()
            &&& m.version@ == starter_version()
            &&& m.scripts@ == Map::<Seq<char>, Seq<char>>::empty()
            &&& m.dependencies@ == Map::<Seq<char>, Seq<char>>::empty()
            &&& m.dev_dependencies@ == Map::<Seq<char>, Seq<char>>::empty()
            &&& m.workspaces is None
        },
{
    if manifest_present {
        None
    } else {
        let mut m = PackageJson::default();
        m.name = String::from_str("my-crabby-project");
        m.version = String::from_str("1.0.0");
        Some(m)
    }
}

/// What the lockfile pins for one package, as plain sequences.
pub struct LockRecord {
    pub version: Seq<char>,
    pub tarball: Seq<char>,
    pub shasum: Seq<char>,
    pub dependencies: Seq<Pair>,
}

/// What the lockfile pins for one package: the concrete version, where its
/// archive is, the archive's content hash, and the dependencies it declares.
pub struct LockDependency {
    pub version: String,
    pub tarball: String,
    pub shasum: String,
    pub dependencies: DepMap,
}

impl View for LockDependency {
    type V = LockRecord;

    open spec fn view(&self) -> LockRecord {
        LockRecord {
            version: self.version@,
            tarball: self.tarball@,
            shasum: self.shasum@,
            dependencies: self.dependencies.pairs(),
        }
    }
}

impl Clone for LockDependency {
    fn clone(&self) -> (copy: LockDependency)
        ensures
            copy@ == self@,
    {
        LockDependency {
            version: self.version.clone(),
            tarball: self.tarball.clone(),
            shasum: self.shasum.clone(),
            dependencies: self.dependencies.clone(),
        }
    }
}

/// A package name and its lock record, as plain sequences.
pub type LockPair = (Seq<char>, LockRecord);

/// The position in `entries` whose name has the text of `name`, if any.
pub fn find_package(entries: &Vec<(String, LockDependency)>, name: &String) -> (found: Option<
    usize,
>)
    ensures
        match found {
            Some(i) => i < entries.len() && entries[i as int].0@ == name@,
            None => forall|i: int| 0 <= i < entries.len() ==> entries[i].0@ != name@,
        },
{
    let mut i: usize = 0;
    while i < entries.len()
        invariant
            i <= entries.len(),
            forall|j: int| 0 <= j < i ==> entries[j].0@ != name@,
        decreases entries.len() - i,
    {
        if entries[i].0 == *name {
            return Some(i);
        }
        i += 1;
    }
    None
}

/// The table of a lockfile: package names to lock records, in insertion order.
pub struct LockMap {
    entries: Vec<(String, LockDependency)>,
}

impl LockMap {
    /// No package name occurs twice.
    #[verifier::type_invariant]
    pub open spec fn wf(&self) -> bool {
        distinct_keys(self.pairs())
    }

    /// The entries as name-record pairs, in insertion order.
    pub closed spec fn pairs(&self) -> Seq<LockPair> {
        Seq::new(self.entries.len() as nat, |i: int| (self.entries[i].0@, self.entries[i].1@))
    }

    /// The empty table.
    pub fn new() -> (m: LockMap)
        ensures
            m.pairs() == Seq::<LockPair>::empty(),
            m@ == Map::<Seq<char>, LockRecord>::empty(),
    {
        let m = LockMap { entries: Vec::new() };
        assert(m.pairs() =~= Seq::<LockPair>::empty());
        assert(m@ =~= Map::<Seq<char>, LockRecord>::empty());
        m
    }

    /// The number of packages.
    pub fn len(&self) -> (n: usize)
        ensures
            n == self.pairs().len(),
    {
        self.entries.len()
    }

    /// Whether the table holds nothing.
    pub fn is_empty(&self) -> (empty: bool)
        ensures
            empty == (self.pairs().len() == 0),
            empty == (self@ == Map::<Seq<char>, LockRecord>::empty()),
    {
        proof {
            use_type_invariant(self);
            if self.pairs().len() == 0 {
                assert(self@ =~= Map::<Seq<char>, LockRecord>::empty());
            } else {
                lemma_map_of_at(self.pairs(), 0);
            }
        }
        self.entries.len() == 0
    }

    /// The package name at position `i`.
    pub fn name_at(&self, i: usize) -> (name: &String)
        requires
            i < self.pairs().len(),
        ensures
            name@ == self.pairs()[i as int].0,
    {
        &self.entries[i].0
    }

    /// The lock record at position `i`.
    pub fn record_at(&self, i: usize) -> (record: &LockDependency)
        requires
            i < self.pairs().len(),
        ensures
            record@ == self.pairs()[i as int].1,
    {
        &self.entries[i].1
    }

    /// The position of `name`, if the table holds it.
    pub fn position(&self, name: &str) -> (found: Option<usize>)
        ensures
            found is Some <==> self@.dom().contains(name@),
            found matches Some(i) ==> i < self.pairs().len() && self.pairs()[i as int].0 == name@
                && self@[name@] == self.pairs()[i as int].1,
    {
        let owned = String::from_str(name);
        let found = find_package(&self.entries, &owned);
        proof {
            use_type_invariant(self);
            match found {
                Some(i) => {
                    lemma_map_of_at(self.pairs(), i as int);
                },
                None => {
                    if has_key(self.pairs(), name@) {
                        let p = position_of(self.pairs(), name@);
                        assert(self.entries[p].0@ == name@);
                    }
                },
            }
        }
        found
    }

    /// Whether the table holds `name`.
    pub fn contains_key(&self, name: &str) -> (held: bool)
        ensures
            held == self@.dom().contains(name@),
    {
        self.position(name).is_some()
    }

    /// The lock record of `name`, if the table holds it.
    pub fn get(&self, name: &str) -> (record: Option<&LockDependency>)
        ensures
            record is Some <==> self@.dom().contains(name@),
            record matches Some(r) ==> r@ == self@[name@],
    {
        match self.position(name) {
            Some(i) => Some(&self.entries[i].1),
            None => None,
        }
    }

    /// Puts `record` under `name`. A name that is already held keeps its
    /// position and gives back its former record; a new name goes to the end.
    pub fn insert(&mut self, name: String, record: LockDependency) -> (former: Option<
        LockDependency,
    >)
        ensures
            final(self)@ == old(self)@.insert(name@, record@),
            final(self).pairs() == put(old(self).pairs(), name@, record@),
            former is Some <==> old(self)@.dom().contains(name@),
            former matches Some(r) ==> r@ == old(self)@[name@],
    {
        proof {
            use_type_invariant(&*self);
        }
        let ghost before = self.pairs();
        let ghost key = name@;
        let ghost value = record@;
        let found = find_package(&self.entries, &name);
        let mut entries: Vec<(String, LockDependency)> = Vec::new();
        std::mem::swap(&mut entries, &mut self.entries);
        let former = match found {
            Some(i) => {
                proof {
                    lemma_map_of_at(before, i as int);
                    lemma_map_of_update(before, i as int, value);
                }
                let taken = entries.remove(i);
                entries.insert(i, (name, record));
                Some(taken.1)
            },
            None => {
                proof {
                    if has_key(before, key) {
                        let p = position_of(before, key);
                        assert(entries[p].0@ == key);
                    }
                    lemma_map_of_push(before, key, value);
                }
                entries.push((name, record));
                None
            },
        };
        proof {
            let after = Seq::new(entries.len() as nat, |i: int| (entries[i].0@, entries[i].1@));
            match found {
                Some(i) => {
                    assert(after =~= before.update(i as int, (key, value)));
                },
                None => {
                    assert(after =~= before.push((key, value)));
                },
            }
        }
        self.entries = entries;
        former
    }

    /// Takes `name` out and gives back its record; the other entries keep their order.
    pub fn remove(&mut self, name: &str) -> (former: Option<LockDependency>)
        ensures
            final(self)@ == old(self)@.remove(name@),
            former is Some <==> old(self)@.dom().contains(name@),
            former matches Some(r) ==> r@ == old(self)@[name@],
            match former {
                Some(_) => exists|i: int|
                    0 <= i < old(self).pairs().len() && #[trigger] old(self).pairs()[i].0 == name@
                        && final(self).pairs() == old(self).pairs().remove(i),
                None => final(self).pairs() == old(self).pairs(),
            },
    {
        proof {
            use_type_invariant(&*self);
        }
        let ghost before = self.pairs();
        let owned = String::from_str(name);
        let found = find_package(&self.entries, &owned);
        match found {
            Some(i) => {
                let mut entries: Vec<(String, LockDependency)> = Vec::new();
                std::mem::swap(&mut entries, &mut self.entries);
                proof {
                    lemma_map_of_at(before, i as int);
                    lemma_map_of_remove(before, i as int);
                }
                let taken = entries.remove(i);
                proof {
                    let after = Seq::new(
                        entries.len() as nat,
                        |i: int| (entries[i].0@, entries[i].1@),
                    );
                    assert(after =~= before.remove(i as int));
                }
                self.entries = entries;
                Some(taken.1)
            },
            None => {
                proof {
                    if has_key(before, name@) {
                        let p = position_of(before, name@);
                        assert(self.entries[p].0@ == name@);
                    }
                    assert(self@ =~= self@.remove(name@));
                }
                None
            },
        }
    }
}

impl View for LockMap {
    type V = Map<Seq<char>, LockRecord>;

    open spec fn view(&self) -> Map<Seq<char>, LockRecord> {
        map_of(self.pairs())
    }
}

impl Clone for LockMap {
    /// A copy with the same entries in the same order.
    fn clone(&self) -> (copy: LockMap)
        ensures
            copy.pairs() == self.pairs(),
            copy@ == self@,
    {
        proof {
            use_type_invariant(self);
        }
        let mut entries: Vec<(String, LockDependency)> = Vec::new();
        let mut i: usize = 0;
        while i < self.entries.len()
            invariant
                i <= self.entries.len(),
                entries.len() == i,
                forall|j: int| 0 <= j < i ==> entries[j].0@ == self.entries[j].0@,
                forall|j: int| 0 <= j < i ==> entries[j].1@ == self.entries[j].1@,
            decreases self.entries.len() - i,
        {
            entries.push((self.entries[i].0.clone(), self.entries[i].1.clone()));
            i += 1;
        }
        assert(Seq::new(entries.len() as nat, |i: int| (entries[i].0@, entries[i].1@))
            =~= self.pairs());
        LockMap { entries }
    }
}

/// The lockfile: each package of the resolved graph with what was pinned for it.
pub struct CrabbyLock {
    pub dependencies: LockMap,
}

impl View for CrabbyLock {
    type V = Map<Seq<char>, LockRecord>;

    open spec fn view(&self) -> Map<Seq<char>, LockRecord> {
        self.dependencies@
    }
}

/// Every name that a record of `lock` lists as a dependency is itself a key of `lock`.
pub open spec fn closed_under_deps(lock: Map<Seq<char>, LockRecord>) -> bool {
    forall|name: Seq<char>, i: int|
        lock.dom().contains(name) && 0 <= i < lock[name].dependencies.len() ==> lock.dom().contains(
            #[trigger] lock[name].dependencies[i].0,
        )
}

impl CrabbyLock {
    /// The lockfile with no entry.
    pub fn new() -> (lock: CrabbyLock)
        ensures
            lock@ == Map::<Seq<char>, LockRecord>::empty(),
            lock.dependencies.pairs() == Seq::<LockPair>::empty(),
    {
        CrabbyLock { dependencies: LockMap::new() }
    }

    /// Records `name` as pinned to `version`, with its archive, the
    /// archive's content hash and its declared dependencies. An earlier
    /// record of that name is replaced.
    pub fn add_package(
        &mut self,
        name: String,
        version: String,
        tarball: String,
        shasum: String,
        dependencies: DepMap,
    )
        ensures
            final(self)@ == old(self)@.insert(
                name@,
                LockRecord {
                    version: version@,
                    tarball: tarball@,
                    shasum: shasum@,
                    dependencies: dependencies.pairs(),
                },
            ),
            final(self).dependencies.pairs() == put(
                old(self).dependencies.pairs(),
                name@,
                LockRecord {
                    version: version@,
                    tarball: tarball@,
                    shasum: shasum@,
                    dependencies: dependencies.pairs(),
                },
            ),
    {
        self.dependencies.insert(name, LockDependency { version, tarball, shasum, dependencies });
    }
}

/// The warning about a lockfile that could not be read.
pub open spec fn lock_warning(reason: Seq<char>) -> Seq<char> {
    "Failed to parse crabby.lock, returning default: "@ + reason
}

impl CrabbyLock {
    /// The lockfile of the project, from what reading its file gave:
    /// `file` is `None` where there is no file, else what the parser made
    /// of it, or the reason why it failed. A missing file and a file that
    /// cannot be read both stand for the empty lockfile; the second comes
    /// with a warning, so that a damaged lockfile never stops an installation.
    pub fn load(file: Option<Result<CrabbyLock, String>>) -> (outcome: (CrabbyLock, Option<String>))
        ensures
            match file {
                None => outcome.0@ == Map::<Seq<char>, LockRecord>::empty() && outcome.1 is None,
                Some(Ok(lock)) => outcome.0 == lock && outcome.1 is None,
                Some(Err(reason)) => outcome.0@ == Map::<Seq<char>, LockRecord>::empty()
                    && outcome.1 is Some && outcome.1->0@ == lock_warning(reason@),
            },
    {
        match file {
            None => (CrabbyLock::new(), None),
            Some(Ok(lock)) => (lock, None),
            Some(Err(reason)) => {
                let mut warning = String::from_str(
                    "Failed to parse crabby.lock, returning default: ",
                );
                warning.append(reason.as_str());
                (CrabbyLock::new(), Some(warning))
            },
        }
    }
}

impl CrabbyLock {
    /// Whether every name that a record lists as a dependency has a record of its own.
    pub fn is_closed(&self) -> (closed: bool)
        ensures
            closed == closed_under_deps(self@),
    {
        let table = &self.dependencies;
        proof {
            use_type_invariant(table);
        }
        let ghost listed = table.pairs();
        let mut i: usize = 0;
        while i < table.len()
            invariant
                table == &self.dependencies,
                listed == table.pairs(),
                distinct_keys(listed),
                i <= listed.len(),
                forall|a: int, b: int|
                    0 <= a < i && 0 <= b < listed[a].1.dependencies.len() ==> self@.dom().contains(
                        #[trigger] listed[a].1.dependencies[b].0,
                    ),
            decreases listed.len() - i,
        {
            let record = table.record_at(i);
            let ghost deps = listed[i as int].1.dependencies;
            let mut j: usize = 0;
            while j < record.dependencies.len()
                invariant
                    table == &self.dependencies,
                    listed == table.pairs(),
                    distinct_keys(listed),
                    i < listed.len(),
                    deps == listed[i as int].1.dependencies,
                    deps == record.dependencies.pairs(),
                    j <= deps.len(),
                    forall|b: int| 0 <= b < j ==> self@.dom().contains(#[trigger] deps[b].0),
                decreases deps.len() - j,
            {
                if !table.contains_key(record.dependencies.key_at(j).as_str()) {
                    proof {
                        lemma_map_of_at(listed, i as int);
                        let name = listed[i as int].0;
                        assert(self@.dom().contains(name));
                        assert(self@[name].dependencies[j as int].0 == deps[j as int].0);
                    }
                    return false;
                }
                j += 1;
            }
            i += 1;
        }
        proof {
            assert forall|name: Seq<char>, b: int|
                self@.dom().contains(name) && 0 <= b < self@[name].dependencies.len()
                    implies self@.dom().contains(#[trigger] self@[name].dependencies[b].0) by {
                let a = position_of(listed, name);
                lemma_map_of_at(listed, a);
                assert(self@.dom().contains(listed[a].1.dependencies[b].0));
            }
        }
        true
    }
}

impl Default for CrabbyLock {
    /// The lockfile with no entry.
    fn default() -> (lock: CrabbyLock)
        ensures
            lock@ == Map::<Seq<char>, LockRecord>::empty(),
    {
        CrabbyLock::new()
    }
}

impl Clone for CrabbyLock {
    fn clone(&self) -> (copy: CrabbyLock)
        ensures
            copy@ == self@,
            copy.dependencies.pairs() == self.dependencies.pairs(),
    {
        CrabbyLock { dependencies: self.dependencies.clone() }
    }
}

} // verus!
