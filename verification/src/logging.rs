//! Where the run's log file lives. The shell is a GUI app with no console,
//! so everything it and the backend print goes to a file the menu opens.

use vstd::prelude::*;
use std::path::PathBuf;

verus! {

#[verifier::external_type_specification]
#[verifier::external_body]
pub struct ExPathBuf(PathBuf);

/// The log's location: set by the first `init` of the run, never changed after.
pub struct LogTarget {
    path: Option<PathBuf>,
}

impl LogTarget {
    /// The location recorded so far.
    pub closed spec fn recorded(&self) -> Option<PathBuf> {
        self.path
    }

    /// Nothing recorded yet.
    pub fn new() -> (t: Self)
        ensures
            t.recorded() is None,
    {
        LogTarget { path: None }
    }

    /// Record `path` as the log's location, unless one was recorded already;
    /// says whether it was recorded.
    pub fn record(&mut self, path: PathBuf) -> (done: bool)
        ensures
            done == old(self).recorded() is None,
            done ==> final(self).recorded() == Some(path),
            !done ==> final(self).recorded() == old(self).recorded(),
            final(self).recorded() == after_records(old(self).recorded(), seq![path]),
    {
        proof {
            let ps = seq![path];
            assert(ps.drop_last() =~= Seq::<PathBuf>::empty());
            assert(after_records(self.path, ps.drop_last()) == self.path);
            assert(ps.last() == path);
        }
        if self.path.is_none() {
            self.path = Some(path);
            true
        } else {
            false
        }
    }
}

/// Where the log lives, once `init` has run.
pub fn path(target: &LogTarget) -> (r: Option<&PathBuf>)
    ensures
        match r {
            Some(p) => target.recorded() == Some(*p),
            None => target.recorded() is None,
        },
{
    target.path.as_ref()
}

/// Where the log is after recording each of `paths` in turn, starting from
/// `start`: the first location recorded stays.
pub open spec fn after_records(start: Option<PathBuf>, paths: Seq<PathBuf>) -> Option<PathBuf>
    decreases paths.len(),
{
    if paths.len() == 0 {
        start
    } else {
        let before = after_records(start, paths.drop_last());
        match before {
            Some(p) => Some(p),
            None => Some(paths.last()),
        }
    }
}

/// However many times a location is recorded, the log stays where the
/// first one put it; before any, it is nowhere.
pub proof fn lemma_first_location_stays(paths: Seq<PathBuf>)
    ensures
        after_records(None, paths) == (if paths.len() == 0 {
            None
        } else {
            Some(paths[0])
        }),
    decreases paths.len(),
{
    if paths.len() > 1 {
        lemma_first_location_stays(paths.drop_last());
        assert(paths.drop_last()[0] == paths[0]);
    } else if paths.len() == 1 {
        assert(paths.drop_last() =~= Seq::<PathBuf>::empty());
        assert(after_records(None, paths.drop_last()) is None);
    }
}

/// Recording `path` is one step of `after_records`.
pub proof fn lemma_record_is_a_step(start: Option<PathBuf>, paths: Seq<PathBuf>, path: PathBuf)
    ensures
        after_records(start, paths.push(path)) == (match after_records(start, paths) {
            Some(p) => Some(p),
            None => Some(path),
        }),
{
    assert(paths.push(path).drop_last() =~= paths);
}

} // verus!
