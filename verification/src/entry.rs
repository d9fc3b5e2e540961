//! The entry model: one filesystem item, normalized into a base name, an
//! optional extension, a size, a kind and two totally ordered timestamps.

use vstd::prelude::*;

verus! {

/// The kind of a filesystem entry.
#[derive(Clone, Copy, PartialEq, Eq, Structural, Debug)]
pub enum EntryKind {
    Directory,
    File,
}

/// Raw data for one entry, as a collaborator retrieves it from the
/// filesystem: the full original name and the metadata already reduced to
/// plain values (timestamps as totally ordered counters).
pub struct RawEntry {
    pub name: String,
    pub kind: EntryKind,
    pub size: u64,
    pub created: u64,
    pub modified: u64,
}

/// One normalized entry: `name` excludes any stripped extension; `suffix`
/// holds the extension without its separating dot, and is always `None`
/// for directories.
#[derive(Debug)]
pub struct FileInfo {
    pub name: String,
    pub suffix: Option<String>,
    pub size: u64,
    pub kind: EntryKind,
    pub created: u64,
    pub modified: u64,
}

/// Position of the last `'.'` in `s`, or `-1` if `s` contains none.
pub open spec fn last_dot(s: Seq<char>) -> int
    decreases s.len(),
{
    if s.len() == 0 {
        -1
    } else if s[s.len() - 1] == '.' {
        s.len() - 1
    } else {
        last_dot(s.drop_last())
    }
}

/// A name splits at its last dot only when that dot is neither the first
/// nor the last character: an extension, when present, is never empty.
pub open spec fn splits(s: Seq<char>) -> bool {
    1 <= last_dot(s) < s.len() - 1
}

/// The base name left after stripping the extension, if one splits off.
pub open spec fn base_of(s: Seq<char>) -> Seq<char> {
    if splits(s) {
        s.subrange(0, last_dot(s))
    } else {
        s
    }
}

/// The extension split off a name: what follows the last dot, the dot
/// excluded, provided that dot is neither the first nor the last
/// character.
pub open spec fn suffix_of(s: Seq<char>) -> Option<Seq<char>> {
    if splits(s) {
        Some(s.subrange(last_dot(s) + 1, s.len() as int))
    } else {
        None
    }
}

pub proof fn lemma_last_dot_in_range(s: Seq<char>)
    ensures
        -1 <= last_dot(s) < s.len(),
        last_dot(s) >= 0 ==> s[last_dot(s)] == '.',
    decreases s.len(),
{
    if s.len() > 0 && s[s.len() - 1] != '.' {
        lemma_last_dot_in_range(s.drop_last());
    }
}

pub proof fn lemma_last_dot_ge(s: Seq<char>, i: int)
    requires
        0 <= i < s.len(),
        s[i] == '.',
    ensures
        last_dot(s) >= i,
    decreases s.len(),
{
    if s.len() > 0 && s[s.len() - 1] != '.' {
        lemma_last_dot_ge(s.drop_last(), i);
    }
}

pub proof fn lemma_last_dot_found(s: Seq<char>, k: int)
    requires
        0 <= k < s.len(),
        s[k] == '.',
        forall|j: int| k < j < s.len() ==> s[j] != '.',
    ensures
        last_dot(s) == k,
    decreases s.len(),
{
    if k < s.len() - 1 {
        lemma_last_dot_found(s.drop_last(), k);
    }
}

pub proof fn lemma_no_dot(s: Seq<char>)
    requires
        forall|j: int| 0 <= j < s.len() ==> s[j] != '.',
    ensures
        last_dot(s) == -1,
    decreases s.len(),
{
    if s.len() > 0 {
        lemma_no_dot(s.drop_last());
    }
}

/// An extension, when present, is never empty and never contains the
/// separating dot, nor any other: the split happens at the last dot of
/// the name, and only when a character follows it.
pub proof fn lemma_suffix_has_no_dot(s: Seq<char>)
    requires
        suffix_of(s) is Some,
    ensures
        suffix_of(s)->0.len() > 0,
        forall|j: int| 0 <= j < suffix_of(s)->0.len() ==> suffix_of(s)->0[j] != '.',
{
    lemma_last_dot_in_range(s);
    let p = last_dot(s);
    let suf = suffix_of(s)->0;
    assert forall|j: int| 0 <= j < suf.len() implies suf[j] != '.' by {
        assert(suf[j] == s[p + 1 + j]);
        if s[p + 1 + j] == '.' {
            lemma_last_dot_ge(s, p + 1 + j);
        }
    }
}

/// Split a raw entry name at its last dot, provided that dot is neither
/// the first nor the last character: the part before becomes the base
/// name, the part after (dot excluded) the extension, which is therefore
/// never empty. A name with no such qualifying dot — no dot at all, a dot
/// only in front, or a dot at the very end — is returned whole, with no
/// extension. Rejoining base, dot and extension reproduces the original
/// name exactly.
pub fn split_suffix(name: String) -> (r: (String, Option<String>))
    ensures
        r.0@ == base_of(name@),
        r.1.deep_view() == suffix_of(name@),
        r.1 is Some ==> r.0@ + seq!['.'] + r.1->0@ == name@,
        r.1 is Some ==> r.1->0@.len() > 0,
        r.1 is None ==> r.0@ == name@,
        (r.1 is Some) <==> ((exists|i: int| 1 <= i < name@.len() && name@[i] == '.') && (
        name@.len() == 0 || name@[name@.len() - 1] != '.')),
{
    let s = name.as_str();
    let n = s.unicode_len();
    let mut i: usize = n;
    let mut dot: usize = 0;
    let mut found: bool = false;
    while i > 0 && !found
        invariant
            i <= n,
            n == s@.len(),
            s@ == name@,
            !found ==> forall|j: int| i <= j < n ==> s@[j] != '.',
            found ==> i < n && s@[i as int] == '.' && dot == i && (forall|j: int|
                i < j < n ==> s@[j] != '.'),
        decreases i + if found { 0int } else { 1int },
    {
        let c = s.get_char(i - 1);
        if c == '.' {
            found = true;
            dot = i - 1;
        }
        i = i - 1;
    }
    proof {
        if found {
            lemma_last_dot_found(name@, dot as int);
        } else {
            lemma_no_dot(name@);
        }
        if exists|i: int| 1 <= i < name@.len() && name@[i] == '.' {
            let i = choose|i: int| 1 <= i < name@.len() && name@[i] == '.';
            lemma_last_dot_ge(name@, i);
        }
    }
    if found && dot > 0 && dot + 1 < n {
        let base = s.substring_char(0, dot).to_owned();
        let suffix = s.substring_char(dot + 1, n).to_owned();
        proof {
            assert(base@ + seq!['.'] + suffix@ =~= name@);
        }
        (base, Some(suffix))
    } else {
        (name, None)
    }
}

impl FileInfo {
    /// Every entry keeps directories free of extensions.
    pub open spec fn wf(self) -> bool {
        self.kind is Directory ==> self.suffix is None
    }

    /// Spec view of the extension's characters, absent counting as empty.
    pub open spec fn spec_suffix_chars(self) -> Seq<char> {
        match self.suffix {
            Some(s) => s@,
            None => Seq::empty(),
        }
    }

    /// Spec view of the optional extension's length, absent counting as 0.
    pub open spec fn spec_suffix_len(self) -> nat {
        self.spec_suffix_chars().len()
    }

    /// Build one entry from raw filesystem data: directories keep their
    /// full name and get no extension; other entries split their name at
    /// the last qualifying dot.
    pub fn from_dir_entry(raw: RawEntry) -> (r: FileInfo)
        ensures
            r.wf(),
            r.kind == raw.kind,
            r.size == raw.size,
            r.created == raw.created,
            r.modified == raw.modified,
            raw.kind is Directory ==> r.name == raw.name && r.suffix is None,
            raw.kind is File ==> r.name@ == base_of(raw.name@) && r.suffix.deep_view()
                == suffix_of(raw.name@),
    {
        let RawEntry { name, kind, size, created, modified } = raw;
        let (name, suffix) = match kind {
            EntryKind::Directory => (name, None),
            EntryKind::File => split_suffix(name),
        };
        FileInfo { name, suffix, size, kind, created, modified }
    }

    /// `e` is the normalized entry built from `raw`.
    pub open spec fn entry_of(raw: RawEntry, e: FileInfo) -> bool {
        &&& e.kind == raw.kind
        &&& e.size == raw.size
        &&& e.created == raw.created
        &&& e.modified == raw.modified
        &&& (raw.kind is Directory ==> e.name == raw.name && e.suffix is None)
        &&& (raw.kind is File ==> e.name@ == base_of(raw.name@) && e.suffix.deep_view()
            == suffix_of(raw.name@))
    }

    /// Whether this entry is a directory.
    pub fn is_dir(&self) -> (r: bool)
        ensures
            r == (self.kind is Directory),
    {
        match self.kind {
            EntryKind::Directory => true,
            EntryKind::File => false,
        }
    }

    /// Length of the extension, an absent one counting as 0.
    pub fn get_suffix_len(&self) -> (r: usize)
        ensures
            r == self.spec_suffix_len(),
    {
        match &self.suffix {
            Some(s) => s.as_str().unicode_len(),
            None => 0,
        }
    }
}

/// Build one normalized entry per raw entry, in order.
pub fn build_entries(raws: Vec<RawEntry>) -> (r: Vec<FileInfo>)
    ensures
        r@.len() == raws@.len(),
        forall|i: int| 0 <= i < r@.len() ==> #[trigger] FileInfo::entry_of(raws@[i], r@[i]),
        forall|i: int| 0 <= i < r@.len() ==> (#[trigger] r@[i]).wf(),
{
    let ghost all = raws@;
    let mut rest = raws;
    let mut r: Vec<FileInfo> = Vec::new();
    while rest.len() > 0
        invariant
            rest@.len() <= all.len(),
            rest@ == all.skip(all.len() - rest@.len()),
            r@.len() == all.len() - rest@.len(),
            forall|i: int| 0 <= i < r@.len() ==> #[trigger] FileInfo::entry_of(all[i], r@[i]),
            forall|i: int| 0 <= i < r@.len() ==> (#[trigger] r@[i]).wf(),
        decreases rest@.len(),
    {
        let ghost done = all.len() - rest@.len();
        let raw = rest.remove(0);
        proof {
            assert(rest@ =~= all.skip(done + 1));
            assert(raw == all[done]);
        }
        let e = FileInfo::from_dir_entry(raw);
        r.push(e);
    }
    r
}

} // verus!
