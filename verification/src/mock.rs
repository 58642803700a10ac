//! In-memory implementations of the collaborator interfaces: a tour store
//! backed by a map from path to tour, a version-control stand-in that replays
//! a canned change set, and a name-to-path registry held in a vector.  Each
//! operation carries its exact specification over the stored state.

use vstd::prelude::*;

use crate::changes::Changes;
use crate::changes::FileModel;
use crate::error::ErrorKind;
use crate::index::Index;
use crate::io::TourFileManager;
use crate::paths::strings_equal;
use crate::paths::AbsolutePathBuf;
use crate::paths::RelativePathBuf;
use crate::types::find_repo;
use crate::types::repo_index;
use crate::types::repo_lookup;
use crate::types::repos_model_of;
use crate::types::Tour;
use crate::types::TourModel;
use crate::vcs::VCS;

verus! {

/// The stored tour files, as path and tour models.
pub open spec fn files_model(v: Seq<(String, Tour)>) -> Seq<(Seq<char>, TourModel)> {
    Seq::new(v.len(), |i: int| (v[i].0@, v[i].1@))
}

/// Index of the first stored file under `key`, or -1.
pub open spec fn stored_index(files: Seq<(Seq<char>, TourModel)>, key: Seq<char>) -> int
    decreases files.len(),
{
    if files.len() == 0 {
        -1
    } else if files.first().0 == key {
        0
    } else {
        let r = stored_index(files.drop_first(), key);
        if r < 0 {
            -1
        } else {
            r + 1
        }
    }
}

/// The tour stored under `key`, if any.
pub open spec fn stored_lookup(files: Seq<(Seq<char>, TourModel)>, key: Seq<char>) -> Option<
    TourModel,
>
    decreases files.len(),
{
    if files.len() == 0 {
        None
    } else if files.first().0 == key {
        Some(files.first().1)
    } else {
        stored_lookup(files.drop_first(), key)
    }
}

pub proof fn lemma_stored_index_spec(files: Seq<(Seq<char>, TourModel)>, key: Seq<char>)
    ensures
        stored_index(files, key) >= -1,
        stored_index(files, key) == -1 <==> (forall|k: int|
            0 <= k < files.len() ==> (#[trigger] files[k]).0 != key),
        stored_index(files, key) == -1 ==> stored_lookup(files, key) is None,
        stored_index(files, key) >= 0 ==> {
            let i = stored_index(files, key);
            &&& 0 <= i < files.len()
            &&& files[i].0 == key
            &&& (forall|k: int| 0 <= k < i ==> (#[trigger] files[k]).0 != key)
            &&& stored_lookup(files, key) == Some(files[i].1)
        },
    decreases files.len(),
{
    if files.len() > 0 && files.first().0 != key {
        lemma_stored_index_spec(files.drop_first(), key);
        assert(forall|k: int|
            0 <= k < files.drop_first().len() ==> #[trigger] files.drop_first()[k] == files[k + 1]);
        assert(forall|k: int| 1 <= k < files.len() ==> #[trigger] files[k] == files.drop_first()[k
            - 1]);
    }
}

/// Position of the first stored file under `key`.
fn find_tour_key(v: &Vec<(String, Tour)>, key: &String) -> (r: Option<usize>)
    ensures
        match r {
            Some(i) => stored_index(files_model(v@), key@) == i as int && i < v@.len()
                && v@[i as int].0@ == key@,
            None => stored_index(files_model(v@), key@) == -1,
        },
{
    let ghost m = files_model(v@);
    let mut i: usize = 0;
    while i < v.len()
        invariant
            m == files_model(v@),
            m.len() == v@.len(),
            0 <= i <= v@.len(),
            forall|k: int| 0 <= k < i ==> (#[trigger] m[k]).0 != key@,
        decreases v@.len() - i,
    {
        proof {
            assert(m[i as int] == (v@[i as int].0@, v@[i as int].1@));
        }
        if strings_equal(&v[i].0, key) {
            proof {
                lemma_stored_index_spec(m, key@);
                if stored_index(m, key@) != i as int {
                    assert(false);
                }
            }
            return Some(i);
        }
        i = i + 1;
    }
    proof {
        lemma_stored_index_spec(m, key@);
    }
    None
}

/// A tour store kept entirely in memory: `file_system` plays the disk,
/// `path_map` remembers where each tour would be written.
pub struct MockTourFileManager {
    pub file_system: Vec<(String, Tour)>,
    pub path_map: Vec<(String, String)>,
}

impl MockTourFileManager {
    pub fn new() -> (r: Self)
        ensures
            r.file_system@.len() == 0,
            r.path_map@.len() == 0,
    {
        MockTourFileManager { file_system: Vec::new(), path_map: Vec::new() }
    }
}

impl TourFileManager for MockTourFileManager {
    fn save_tour(&mut self, tour: &Tour) -> (r: Result<(), ErrorKind>)
        ensures
            final(self).path_map == old(self).path_map,
            (match r {
                Err(e) => e == ErrorKind::NoPathForTour,
                _ => false,
            }) <==> repo_lookup(repos_model_of(old(self).path_map@), tour.id@) is None,
            r is Err ==> final(self).file_system == old(self).file_system,
            r is Ok ==> exists|p: Seq<char>|
                #![auto]
                repo_lookup(repos_model_of(old(self).path_map@), tour.id@) == Some(p) && ({
                    let files = files_model(old(self).file_system@);
                    let i = stored_index(files, p);
                    files_model(final(self).file_system@) == if i >= 0 {
                        files.update(i, (p, tour@))
                    } else {
                        files.push((p, tour@))
                    }
                }),
    {
        let path: String = match find_repo(&self.path_map, &tour.id) {
            Some(i) => self.path_map[i].1.clone(),
            None => {
                return Err(ErrorKind::NoPathForTour);
            },
        };
        let ghost p = path@;
        let ghost files = files_model(self.file_system@);
        match find_tour_key(&self.file_system, &path) {
            Some(i) => {
                self.file_system.set(i, (path, tour.clone()));
                proof {
                    assert(files_model(self.file_system@) =~= files.update(i as int, (p, tour@)));
                }
            },
            None => {
                self.file_system.push((path, tour.clone()));
                proof {
                    assert(files_model(self.file_system@) =~= files.push((p, tour@)));
                }
            },
        }
        Ok(())
    }

    fn load_tour(&self, path: &String) -> (r: Result<Tour, ErrorKind>)
        ensures
            match r {
                Ok(t) => stored_lookup(files_model(self.file_system@), path@) == Some(t@),
                Err(e) => e == ErrorKind::FailedToReadTour && stored_lookup(
                    files_model(self.file_system@),
                    path@,
                ) is None,
            },
    {
        proof {
            lemma_stored_index_spec(files_model(self.file_system@), path@);
        }
        match find_tour_key(&self.file_system, path) {
            Some(i) => {
                let t = self.file_system[i].1.clone();
                proof {
                    assert(t@ == files_model(self.file_system@)[i as int].1);
                }
                Ok(t)
            },
            None => Err(ErrorKind::FailedToReadTour),
        }
    }

    fn delete_tour(&mut self, tour_id: &String) -> (r: Result<(), ErrorKind>)
        ensures
            (match r {
                Err(e) => e == ErrorKind::NoPathForTour,
                _ => false,
            }) <==> repo_lookup(repos_model_of(old(self).path_map@), tour_id@) is None,
            r is Err ==> final(self).path_map == old(self).path_map && final(self).file_system
                == old(self).file_system,
            r is Ok ==> ({
                let pm = repos_model_of(old(self).path_map@);
                let i = repo_index(pm, tour_id@);
                &&& i >= 0
                &&& repos_model_of(final(self).path_map@) == pm.remove(i)
                &&& ({
                    let files = files_model(old(self).file_system@);
                    let j = stored_index(files, pm[i].1);
                    files_model(final(self).file_system@) == if j >= 0 {
                        files.remove(j)
                    } else {
                        files
                    }
                })
            }),
    {
        let ghost pm = repos_model_of(self.path_map@);
        let path: String = match find_repo(&self.path_map, tour_id) {
            Some(i) => {
                let entry = self.path_map.remove(i);
                proof {
                    assert(repos_model_of(self.path_map@) =~= pm.remove(i as int));
                }
                entry.1
            },
            None => {
                return Err(ErrorKind::NoPathForTour);
            },
        };
        let ghost files = files_model(self.file_system@);
        match find_tour_key(&self.file_system, &path) {
            Some(i) => {
                let _ = self.file_system.remove(i);
                proof {
                    assert(files_model(self.file_system@) =~= files.remove(i as int));
                }
            },
            None => {},
        }
        Ok(())
    }

    fn set_tour_path(&mut self, tour_id: String, path: String)
        ensures
            final(self).file_system == old(self).file_system,
            ({
                let pm = repos_model_of(old(self).path_map@);
                let i = repo_index(pm, tour_id@);
                repos_model_of(final(self).path_map@) == if i >= 0 {
                    pm.update(i, (tour_id@, path@))
                } else {
                    pm.push((tour_id@, path@))
                }
            }),
    {
        let ghost pm = repos_model_of(self.path_map@);
        match find_repo(&self.path_map, &tour_id) {
            Some(i) => {
                self.path_map.set(i, (tour_id, path));
                proof {
                    assert(repos_model_of(self.path_map@) =~= pm.update(
                        i as int,
                        (old(self).path_map@[i as int].0@, path@),
                    ));
                }
            },
            None => {
                self.path_map.push((tour_id, path));
                proof {
                    assert(repos_model_of(self.path_map@) =~= pm.push((tour_id@, path@)));
                }
            },
        }
    }

    fn reload_tour(&self, tour_id: &String) -> (r: Result<Tour, ErrorKind>)
        ensures
            match r {
                Ok(t) => exists|p: Seq<char>|
                    #![auto]
                    repo_lookup(repos_model_of(self.path_map@), tour_id@) == Some(p)
                        && stored_lookup(files_model(self.file_system@), p) == Some(t@),
                Err(e) => e == ErrorKind::NoPathForTour && repo_lookup(
                    repos_model_of(self.path_map@),
                    tour_id@,
                ) is None || e == ErrorKind::FailedToReadTour && (exists|p: Seq<char>|
                    #![auto]
                    repo_lookup(repos_model_of(self.path_map@), tour_id@) == Some(p)
                        && stored_lookup(files_model(self.file_system@), p) is None),
            },
    {
        let path: String = match find_repo(&self.path_map, tour_id) {
            Some(i) => self.path_map[i].1.clone(),
            None => {
                return Err(ErrorKind::NoPathForTour);
            },
        };
        proof {
            lemma_stored_index_spec(files_model(self.file_system@), path@);
        }
        match find_tour_key(&self.file_system, &path) {
            Some(i) => {
                let t = self.file_system[i].1.clone();
                proof {
                    assert(t@ == files_model(self.file_system@)[i as int].1);
                }
                Ok(t)
            },
            None => Err(ErrorKind::FailedToReadTour),
        }
    }
}

/// A version-control stand-in: every repository is at commit `COMMIT` with a
/// clean workspace, and every diff replays `last_changes`.
pub struct MockVCS {
    /// What the next diff returns; an absent or ill-formed value replays an
    /// empty change set.
    pub last_changes: Option<Changes>,
    /// What `lookup_file_bytes` hands out, for any file asked about.
    pub file_bytes: Option<Vec<u8>>,
}

impl MockVCS {
    pub fn new() -> (r: Self)
        ensures
            r.last_changes is None,
            r.file_bytes is None,
    {
        MockVCS { last_changes: None, file_bytes: None }
    }

    /// What every diff of this stand-in replays.
    pub open spec fn replay_model(&self) -> Seq<(Seq<Seq<char>>, FileModel)> {
        match self.last_changes {
            Some(c) => if c.wf() {
                c@
            } else {
                Seq::empty()
            },
            None => Seq::empty(),
        }
    }

    fn replay(&self) -> (r: Changes)
        ensures
            r.wf(),
            r@ == self.replay_model(),
    {
        match &self.last_changes {
            Some(c) => {
                let copy = c.clone();
                if copy.is_well_formed() {
                    copy
                } else {
                    let r = Changes::new();
                    proof {
                        assert(r@ =~= self.replay_model());
                    }
                    r
                }
            },
            None => {
                let r = Changes::new();
                proof {
                    assert(r@ =~= self.replay_model());
                }
                r
            },
        }
    }
}

impl VCS for MockVCS {
    fn get_current_version(&self, _repo_path: &AbsolutePathBuf) -> (r: Result<String, ErrorKind>)
        ensures
            r matches Ok(v) && v@ == "COMMIT"@,
    {
        Ok("COMMIT".to_owned())
    }

    fn diff_with_version(&self, _repo_path: &AbsolutePathBuf, _from: &String, _to: &String) -> (r:
        Result<Changes, ErrorKind>)
        ensures
            r matches Ok(c) && c@ == self.replay_model(),
    {
        Ok(self.replay())
    }

    fn diff_with_worktree(&self, _repo_path: &AbsolutePathBuf, _from: &String) -> (r: Result<
        Changes,
        ErrorKind,
    >)
        ensures
            r matches Ok(c) && c@ == self.replay_model(),
    {
        Ok(self.replay())
    }

    fn is_workspace_dirty(&self, _repo_path: &AbsolutePathBuf) -> (r: Result<bool, ErrorKind>)
        ensures
            r == Ok::<bool, ErrorKind>(false),
    {
        Ok(false)
    }

    fn checkout_version(&self, _repo_path: &AbsolutePathBuf, to: &String) -> (r: Result<
        String,
        ErrorKind,
    >)
        ensures
            r matches Ok(v) && v@ == to@,
    {
        Ok(to.clone())
    }

    fn lookup_file_bytes(
        &self,
        _repo_path: &AbsolutePathBuf,
        _commit: &String,
        _file_path: &RelativePathBuf,
    ) -> (r: Result<Vec<u8>, ErrorKind>)
        ensures
            match self.file_bytes {
                Some(b) => r matches Ok(d) && d@ == b@,
                None => r == Err::<Vec<u8>, ErrorKind>(ErrorKind::FailedToParseRevision),
            },
    {
        match &self.file_bytes {
            Some(b) => {
                let d = clone_bytes(b);
                Ok(d)
            },
            None => Err(ErrorKind::FailedToParseRevision),
        }
    }
}

/// Clones a byte vector, keeping its contents.
fn clone_bytes(v: &Vec<u8>) -> (r: Vec<u8>)
    ensures
        r@ == v@,
{
    let mut r: Vec<u8> = Vec::new();
    let mut i: usize = 0;
    while i < v.len()
        invariant
            0 <= i <= v@.len(),
            r@ =~= v@.take(i as int),
        decreases v@.len() - i,
    {
        r.push(v[i]);
        proof {
            assert(r@ =~= v@.take(i + 1));
        }
        i = i + 1;
    }
    proof {
        assert(v@.take(v@.len() as int) =~= v@);
    }
    r
}

/// The registered repositories, as name and path-component models.
pub open spec fn registry_model(v: Seq<(String, AbsolutePathBuf)>) -> Seq<
    (Seq<char>, Seq<Seq<char>>),
> {
    Seq::new(v.len(), |i: int| (v[i].0@, v[i].1@))
}

/// Index of the first registration of `name`, or -1.
pub open spec fn registry_index(
    entries: Seq<(Seq<char>, Seq<Seq<char>>)>,
    name: Seq<char>,
) -> int
    decreases entries.len(),
{
    if entries.len() == 0 {
        -1
    } else if entries.first().0 == name {
        0
    } else {
        let r = registry_index(entries.drop_first(), name);
        if r < 0 {
            -1
        } else {
            r + 1
        }
    }
}

/// The registered path of `name`, if any.
pub open spec fn registry_lookup(
    entries: Seq<(Seq<char>, Seq<Seq<char>>)>,
    name: Seq<char>,
) -> Option<Seq<Seq<char>>>
    decreases entries.len(),
{
    if entries.len() == 0 {
        None
    } else if entries.first().0 == name {
        Some(entries.first().1)
    } else {
        registry_lookup(entries.drop_first(), name)
    }
}

pub proof fn lemma_registry_index_spec(
    entries: Seq<(Seq<char>, Seq<Seq<char>>)>,
    name: Seq<char>,
)
    ensures
        registry_index(entries, name) >= -1,
        registry_index(entries, name) == -1 <==> (forall|k: int|
            0 <= k < entries.len() ==> (#[trigger] entries[k]).0 != name),
        registry_index(entries, name) == -1 ==> registry_lookup(entries, name) is None,
        registry_index(entries, name) >= 0 ==> {
            let i = registry_index(entries, name);
            &&& 0 <= i < entries.len()
            &&& entries[i].0 == name
            &&& (forall|k: int| 0 <= k < i ==> (#[trigger] entries[k]).0 != name)
            &&& registry_lookup(entries, name) == Some(entries[i].1)
        },
    decreases entries.len(),
{
    if entries.len() > 0 && entries.first().0 != name {
        lemma_registry_index_spec(entries.drop_first(), name);
        assert(forall|k: int|
            0 <= k < entries.drop_first().len() ==> #[trigger] entries.drop_first()[k] == entries[k
                + 1]);
        assert(forall|k: int| 1 <= k < entries.len() ==> #[trigger] entries[k]
            == entries.drop_first()[k - 1]);
    }
}

/// A name-to-path registry held in a vector.
pub struct MockIndex(pub Vec<(String, AbsolutePathBuf)>);

impl MockIndex {
    pub fn new() -> (r: Self)
        ensures
            r.0@.len() == 0,
    {
        MockIndex(Vec::new())
    }
}

/// Position of the first registration of `key`.
fn find_index_key(v: &Vec<(String, AbsolutePathBuf)>, key: &String) -> (r: Option<usize>)
    ensures
        match r {
            Some(i) => registry_index(registry_model(v@), key@) == i as int && i < v@.len()
                && v@[i as int].0@ == key@,
            None => registry_index(registry_model(v@), key@) == -1,
        },
{
    let ghost m = registry_model(v@);
    let mut i: usize = 0;
    while i < v.len()
        invariant
            m == registry_model(v@),
            m.len() == v@.len(),
            0 <= i <= v@.len(),
            forall|k: int| 0 <= k < i ==> (#[trigger] m[k]).0 != key@,
        decreases v@.len() - i,
    {
        proof {
            assert(m[i as int] == (v@[i as int].0@, v@[i as int].1@));
        }
        if strings_equal(&v[i].0, key) {
            proof {
                lemma_registry_index_spec(m, key@);
                if registry_index(m, key@) != i as int {
                    assert(false);
                }
            }
            return Some(i);
        }
        i = i + 1;
    }
    proof {
        lemma_registry_index_spec(m, key@);
    }
    None
}

impl Index for MockIndex {
    fn get(&self, repo_name: &String) -> (r: Result<Option<AbsolutePathBuf>, ErrorKind>)
        ensures
            match r {
                Ok(Some(p)) => registry_lookup(registry_model(self.0@), repo_name@) == Some(p@),
                Ok(None) => registry_lookup(registry_model(self.0@), repo_name@) is None,
                Err(_) => false,
            },
    {
        proof {
            lemma_registry_index_spec(registry_model(self.0@), repo_name@);
        }
        match find_index_key(&self.0, repo_name) {
            Some(i) => {
                let p = self.0[i].1.clone();
                proof {
                    assert(p@ == registry_model(self.0@)[i as int].1);
                }
                Ok(Some(p))
            },
            None => Ok(None),
        }
    }

    fn set(&mut self, repo_name: &String, path: &AbsolutePathBuf) -> (r: Result<(), ErrorKind>)
        ensures
            r is Ok,
            ({
                let m = registry_model(old(self).0@);
                let i = registry_index(m, repo_name@);
                registry_model(final(self).0@) == if i >= 0 {
                    m.update(i, (repo_name@, path@))
                } else {
                    m.push((repo_name@, path@))
                }
            }),
    {
        let ghost m = registry_model(self.0@);
        match find_index_key(&self.0, repo_name) {
            Some(i) => {
                self.0.set(i, (repo_name.clone(), path.clone()));
                proof {
                    assert(registry_model(self.0@) =~= m.update(i as int, (repo_name@, path@)));
                }
            },
            None => {
                self.0.push((repo_name.clone(), path.clone()));
                proof {
                    assert(registry_model(self.0@) =~= m.push((repo_name@, path@)));
                }
            },
        }
        Ok(())
    }

    fn unset(&mut self, repo_name: &String) -> (r: Result<(), ErrorKind>)
        ensures
            r is Ok,
            ({
                let m = registry_model(old(self).0@);
                let i = registry_index(m, repo_name@);
                registry_model(final(self).0@) == if i >= 0 {
                    m.remove(i)
                } else {
                    m
                }
            }),
    {
        let ghost m = registry_model(self.0@);
        match find_index_key(&self.0, repo_name) {
            Some(i) => {
                let _ = self.0.remove(i);
                proof {
                    assert(registry_model(self.0@) =~= m.remove(i as int));
                }
            },
            None => {
                proof {
                    assert(registry_model(self.0@) =~= m);
                }
            },
        }
        Ok(())
    }

    fn all(&self) -> (r: Result<Vec<(String, AbsolutePathBuf)>, ErrorKind>)
        ensures
            r matches Ok(v) && registry_model(v@) == registry_model(self.0@),
    {
        let mut r: Vec<(String, AbsolutePathBuf)> = Vec::new();
        let mut i: usize = 0;
        while i < self.0.len()
            invariant
                0 <= i <= self.0@.len(),
                registry_model(r@) =~= registry_model(self.0@).take(i as int),
            decreases self.0@.len() - i,
        {
            let ghost m = registry_model(r@);
            proof {
                assert(registry_model(self.0@)[i as int] == (
                    self.0@[i as int].0@,
                    self.0@[i as int].1@,
                ));
            }
            r.push((self.0[i].0.clone(), self.0[i].1.clone()));
            proof {
                assert(registry_model(r@) =~= m.push(registry_model(self.0@)[i as int]));
                assert(registry_model(r@) =~= registry_model(self.0@).take(i + 1));
            }
            i = i + 1;
        }
        proof {
            assert(registry_model(self.0@).take(self.0@.len() as int) =~= registry_model(
                self.0@,
            ));
        }
        Ok(r)
    }
}

} // verus!
