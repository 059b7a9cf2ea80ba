//! The file system seen from outside: paths that lead to entries.

use crate::text::{components, names_of, normal_components};
use crate::traits::BlockDevice;
use crate::vfat::dir::{first_match, listing, Dir};
use crate::vfat::entry::{Entry, EntryView};
use crate::vfat::error::Error;
use crate::vfat::file::File;
use crate::vfat::metadata::MetadataView;
use crate::vfat::chain::{contents_of, lemma_contents_stable, Contents};
use crate::vfat::geometry::Geometry;
use crate::vfat::vfat::VFat;
use vstd::prelude::*;

verus! {

/// What looking for an entry comes to.
pub enum Resolved {
    /// The entry that was looked for.
    Found(EntryView),
    /// A directory on the way holds no entry of the name that was asked for.
    NotFound,
    /// The way leads through an entry that is a file.
    NotADirectory,
    /// The chain of a directory on the way is broken.
    Broken,
    /// The chain of a directory on the way leads to a sector that the cache
    /// does not hold.
    Unread,
}

/// The root directory of a volume: it has no name, size or times of its own.
pub open spec fn root_of(g: Geometry) -> EntryView {
    EntryView { is_dir: true, metadata: MetadataView::blank(), start_cluster: g.root_dir_cluster }
}

/// Looks up `name` among the entries of `dir`, as far as the cache `s`
/// holds them. The name is compared without regard to the case of ASCII
/// letters, and the first entry that has it is the one found.
#[verifier::opaque]
pub open spec fn lookup(
    s: Map<u64, Seq<u8>>,
    g: Geometry,
    dir: EntryView,
    name: Seq<char>,
) -> Resolved {
    if !dir.is_dir {
        Resolved::NotADirectory
    } else {
        match contents_of(s, g, dir.start_cluster) {
            Contents::Unread => Resolved::Unread,
            Contents::Broken => Resolved::Broken,
            Contents::Bytes(b) => match first_match(listing(b, 0), name, 0) {
                Some(i) => Resolved::Found(listing(b, 0)[i]),
                None => Resolved::NotFound,
            },
        }
    }
}

/// Goes from `current` down the entries that `names` name, one directory
/// after another, and stops at the first name that does not lead on.
pub open spec fn resolve(
    s: Map<u64, Seq<u8>>,
    g: Geometry,
    current: EntryView,
    names: Seq<Seq<char>>,
) -> Resolved
    decreases names.len(),
{
    if names.len() == 0 {
        Resolved::Found(current)
    } else {
        match lookup(s, g, current, names[0]) {
            Resolved::Found(next) => resolve(s, g, next, names.drop_first()),
            other => other,
        }
    }
}

/// The entries `trail` are those that the first names of `names` lead
/// through: each is found under its name in the one before.
pub open spec fn leads(
    s: Map<u64, Seq<u8>>,
    g: Geometry,
    trail: Seq<EntryView>,
    names: Seq<Seq<char>>,
) -> bool {
    &&& 0 < trail.len() <= names.len() + 1
    &&& forall|i: int|
        0 <= i < trail.len() - 1 ==> lookup(s, g, #[trigger] trail[i], names[i])
            == Resolved::Found(trail[i + 1])
}

/// What a lookup has found stays found when the cache grows.
pub proof fn lemma_lookup_stable(
    s: Map<u64, Seq<u8>>,
    t: Map<u64, Seq<u8>>,
    g: Geometry,
    dir: EntryView,
    name: Seq<char>,
)
    requires
        s.submap_of(t),
        !(lookup(s, g, dir, name) is Unread),
    ensures
        lookup(t, g, dir, name) == lookup(s, g, dir, name),
{
    reveal(lookup);
    if dir.is_dir {
        lemma_contents_stable(s, t, g, dir.start_cluster);
    }
}

/// A trail that leads through a cache leads through every cache that has
/// grown from it.
pub proof fn lemma_leads_stable(
    s: Map<u64, Seq<u8>>,
    t: Map<u64, Seq<u8>>,
    g: Geometry,
    trail: Seq<EntryView>,
    names: Seq<Seq<char>>,
)
    requires
        s.submap_of(t),
        leads(s, g, trail, names),
    ensures
        leads(t, g, trail, names),
{
    assert forall|i: int| 0 <= i < trail.len() - 1 implies lookup(
        t,
        g,
        #[trigger] trail[i],
        names[i],
    ) == Resolved::Found(trail[i + 1]) by {
        lemma_lookup_stable(s, t, g, trail[i], names[i]);
    }
}

/// Going down all the names from the first entry of a trail is going down
/// the names that are left from its last entry.
pub proof fn lemma_resolve_trail(
    s: Map<u64, Seq<u8>>,
    g: Geometry,
    trail: Seq<EntryView>,
    names: Seq<Seq<char>>,
)
    requires
        leads(s, g, trail, names),
    ensures
        resolve(s, g, trail[0], names) == resolve(
            s,
            g,
            trail.last(),
            names.skip(trail.len() - 1),
        ),
    decreases trail.len(),
{
    if trail.len() == 1 {
        assert(names.skip(0) =~= names);
    } else {
        let rest = trail.drop_first();
        let later = names.drop_first();
        assert forall|i: int| 0 <= i < rest.len() - 1 implies lookup(
            s,
            g,
            #[trigger] rest[i],
            later[i],
        ) == Resolved::Found(rest[i + 1]) by {
            assert(rest[i] == trail[i + 1]);
            assert(lookup(s, g, trail[i + 1], names[i + 1]) == Resolved::Found(trail[i + 2]));
        }
        lemma_resolve_trail(s, g, rest, later);
        assert(lookup(s, g, trail[0], names[0]) == Resolved::Found(trail[1]));
        assert(later.skip(rest.len() - 1) =~= names.skip(trail.len() - 1));
    }
}

/// A trail that has come to its last name has found what the names lead to.
pub proof fn lemma_trail_arrived(
    s: Map<u64, Seq<u8>>,
    g: Geometry,
    trail: Seq<EntryView>,
    names: Seq<Seq<char>>,
)
    requires
        leads(s, g, trail, names),
        trail.len() == names.len() + 1,
    ensures
        resolve(s, g, trail[0], names) == Resolved::Found(trail.last()),
{
    lemma_resolve_trail(s, g, trail, names);
    assert(names.skip(trail.len() - 1).len() == 0);
}

/// A trail, in a cache that has since grown, goes on by the entry that the
/// next name finds in its last entry, and ends with whatever else the
/// lookup of that name comes to.
pub proof fn lemma_trail_step(
    s: Map<u64, Seq<u8>>,
    t: Map<u64, Seq<u8>>,
    g: Geometry,
    trail: Seq<EntryView>,
    names: Seq<Seq<char>>,
    outcome: Resolved,
)
    requires
        s.submap_of(t),
        leads(s, g, trail, names),
        trail.len() <= names.len(),
        lookup(t, g, trail.last(), names[trail.len() - 1]) == outcome,
    ensures
        outcome matches Resolved::Found(e) ==> leads(t, g, trail.push(e), names),
        !(outcome is Found) ==> resolve(t, g, trail[0], names) == outcome,
{
    lemma_leads_stable(s, t, g, trail, names);
    match outcome {
        Resolved::Found(e) => {
            let longer = trail.push(e);
            assert forall|i: int| 0 <= i < longer.len() - 1 implies lookup(
                t,
                g,
                #[trigger] longer[i],
                names[i],
            ) == Resolved::Found(longer[i + 1]) by {
                if i < trail.len() - 1 {
                    assert(longer[i] == trail[i]);
                    assert(longer[i + 1] == trail[i + 1]);
                    assert(lookup(t, g, trail[i], names[i]) == Resolved::Found(trail[i + 1]));
                } else {
                    assert(longer[i] == trail.last());
                }
            }
        },
        _ => {
            lemma_resolve_trail(t, g, trail, names);
            let left = names.skip(trail.len() - 1);
            assert(left[0] == names[trail.len() - 1]);
        },
    }
}

/// What a lookup comes to, spelled out: a file has no entries, and a
/// directory is searched as far as the cache holds it.
pub proof fn lemma_lookup(s: Map<u64, Seq<u8>>, g: Geometry, dir: EntryView, name: Seq<char>)
    ensures
        !dir.is_dir ==> lookup(s, g, dir, name) is NotADirectory,
        dir.is_dir ==> lookup(s, g, dir, name) == (match contents_of(s, g, dir.start_cluster) {
            Contents::Unread => Resolved::Unread,
            Contents::Broken => Resolved::Broken,
            Contents::Bytes(b) => match first_match(listing(b, 0), name, 0) {
                Some(i) => Resolved::Found(listing(b, 0)[i]),
                None => Resolved::NotFound,
            },
        }),
{
    reveal(lookup);
}

impl<D: BlockDevice> VFat<D> {
    /// What the path `path` leads to from the root directory, as far as the
    /// volume has read the directories on the way. The components of the
    /// path are separated by `/`; empty components, `.` and `..` are
    /// passed over.
    pub open spec fn resolves(&self, path: Seq<char>) -> Resolved {
        resolve(
            self.sectors(),
            self.geometry(),
            root_of(self.geometry()),
            normal_components(path),
        )
    }

    /// Opens the entry at `path`, starting at the root directory. Every
    /// component of the path but the last must name a directory. Names are
    /// compared without regard to the case of ASCII letters.
    ///
    /// # Errors
    ///
    /// Returns `NotFound` if a directory on the way holds no entry of the
    /// name asked for, `InvalidInput` if the path goes through a file,
    /// `InvalidData` if the chain of a directory on the way is broken, and
    /// `Io` if the device fails.
    pub fn open(&mut self, path: &str) -> (r: Result<Entry, Error>)
        requires
            old(self).wf(),
        ensures
            final(self).wf(),
            final(self).geometry() == old(self).geometry(),
            old(self).sectors().submap_of(final(self).sectors()),
            match r {
                Ok(e) => final(self).resolves(path@) == Resolved::Found(e@) && e.is_fresh(),
                Err(Error::NotFound) => final(self).resolves(path@) is NotFound,
                Err(Error::InvalidInput) => final(self).resolves(path@) is NotADirectory,
                Err(Error::InvalidData) => final(self).resolves(path@) is Broken,
                Err(Error::Io(_)) => final(self).resolves(path@) is Unread,
                Err(_) => false,
            },
    {
        let names: Vec<String> = components(path);
        let mut current: Entry = Entry::Dir(
            Dir { metadata: Default::default(), start_cluster: self.root_cluster() },
        );
        let ghost g = self.geometry();
        let ghost wanted = normal_components(path@);
        let ghost trail: Seq<EntryView> = seq![current@];
        let mut k: usize = 0;
        assert(current@ == root_of(g));
        while k < names.len()
            invariant
                self.wf(),
                self.geometry() == g,
                g == old(self).geometry(),
                old(self).sectors().submap_of(self.sectors()),
                names_of(names@) == wanted,
                wanted == normal_components(path@),
                k <= names.len(),
                trail.len() == k + 1,
                trail[0] == root_of(g),
                trail.last() == current@,
                current.is_fresh(),
                leads(self.sectors(), g, trail, wanted),
            decreases names.len() - k,
        {
            let ghost before = self.sectors();
            let ghost name = wanted[k as int];
            assert(names@[k as int]@ == name);
            let found = match &current {
                Entry::Dir(dir) => dir.find(self, names[k].as_str()),
                Entry::File(_) => Err(Error::InvalidInput),
            };
            proof {
                vstd::map_lib::lemma_submap_of_trans(old(self).sectors(), before, self.sectors());
                lemma_lookup(self.sectors(), g, current@, name);
                lemma_trail_step(
                    before,
                    self.sectors(),
                    g,
                    trail,
                    wanted,
                    lookup(self.sectors(), g, current@, name),
                );
            }
            match found {
                Ok(entry) => {
                    proof {
                        trail = trail.push(entry@);
                    }
                    current = entry;
                    k += 1;
                },
                Err(e) => {
                    return Err(e);
                },
            }
        }
        proof {
            lemma_trail_arrived(self.sectors(), g, trail, wanted);
        }
        Ok(current)
    }

    /// Creating a file is not supported: the volume is read-only.
    pub fn create_file(&mut self, _path: &str) -> (r: Result<File, Error>)
        ensures
            r matches Err(e) && e is Unsupported,
            *final(self) == *old(self),
    {
        Err(Error::Unsupported)
    }

    /// Creating a directory is not supported: the volume is read-only.
    pub fn create_dir(&mut self, _path: &str, _parents: bool) -> (r: Result<Dir, Error>)
        ensures
            r matches Err(e) && e is Unsupported,
            *final(self) == *old(self),
    {
        Err(Error::Unsupported)
    }

    /// Renaming an entry is not supported: the volume is read-only.
    pub fn rename(&mut self, _from: &str, _to: &str) -> (r: Result<(), Error>)
        ensures
            r matches Err(e) && e is Unsupported,
            *final(self) == *old(self),
    {
        Err(Error::Unsupported)
    }

    /// Removing an entry is not supported: the volume is read-only.
    pub fn remove(&mut self, _path: &str, _children: bool) -> (r: Result<(), Error>)
        ensures
            r matches Err(e) && e is Unsupported,
            *final(self) == *old(self),
    {
        Err(Error::Unsupported)
    }
}

} // verus!
