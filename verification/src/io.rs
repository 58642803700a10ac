//! Persistence of tour files: load, save and delete a tour's serialized
//! form.  The engine consumes this interface; the on-disk format belongs to
//! the implementation.

use vstd::prelude::*;

use crate::error::persistence_error;
use crate::error::ErrorKind;
use crate::types::Tour;

verus! {

/// Where tours are loaded from and saved to.  A failing operation surfaces
/// one of the persistence error kinds, never a state error of the engine.
pub trait TourFileManager {
    /// Writes `tour` to its assigned path; fails with `NoPathForTour` when no
    /// path was assigned.
    fn save_tour(&mut self, tour: &Tour) -> (r: Result<(), ErrorKind>)
        ensures
            r matches Err(e) ==> persistence_error(e),
    ;

    /// Reads the tour stored at `path`.
    fn load_tour(&self, path: &String) -> (r: Result<Tour, ErrorKind>)
        ensures
            r matches Err(e) ==> persistence_error(e),
    ;

    /// Forgets the path assignment of `tour_id`.
    fn delete_tour(&mut self, tour_id: &String) -> (r: Result<(), ErrorKind>)
        ensures
            r matches Err(e) ==> persistence_error(e),
    ;

    /// Assigns the path that `save_tour` will write `tour_id` to.
    fn set_tour_path(&mut self, tour_id: String, path: String);

    /// Reads the tour from the path assigned to `tour_id`.
    fn reload_tour(&self, tour_id: &String) -> (r: Result<Tour, ErrorKind>)
        ensures
            r matches Err(e) ==> persistence_error(e),
    ;
}

} // verus!
