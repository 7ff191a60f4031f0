//! The compute half of loading and creating projects. The embedding reads
//! the file and hands its bytes here; this module decides what the bytes
//! mean, what must be written back, and what may be published. All file
//! and dialog I/O stays outside.

use path_absolutize::Absolutize;
use vstd::prelude::*;

use crate::codec::{dec_doc, enc_doc, parse, serialize};
use crate::document::{DocView, Document};
use crate::project::LoadedProject;

verus! {

/// The failure kinds surfaced to the user. The load path here produces
/// only `Parse`; `Io` and `Serialize` arise at the embedding's boundary
/// and are carried in the same type so every failure is reported alike.
#[derive(PartialEq, Eq, Structural, Clone, Copy, Debug)]
pub enum LoadError {
    Io,
    Parse,
    Serialize,
}

impl LoadError {
    /// The user-facing description of this failure.
    pub fn message(&self) -> String {
        match self {
            LoadError::Io => String::from_str("could not read or write the project file"),
            LoadError::Parse => String::from_str("the project file is malformed"),
            LoadError::Serialize => String::from_str("the project could not be serialized"),
        }
    }
}

/// A successful load: the record to publish, and the bytes the embedding
/// must write back to the file first, if any.
pub struct LoadOutcome {
    pub project: LoadedProject,
    pub write_back: Option<Vec<u8>>,
}

/// Relies on `path_absolutize::Absolutize::absolutize` for `Path`: it
/// resolves the path against the process's working directory. The result
/// depends on the environment, so nothing is claimed of it; `None` stands
/// for the call's error case.
#[verifier::external_body]
fn absolutize_path(path: &String) -> (r: Option<String>) {
    match std::path::Path::new(path.as_str()).absolutize() {
        Ok(p) => Some(p.to_string_lossy().into_owned()),
        Err(_) => None,
    }
}

/// The path stored in a loaded project: the absolutized form of the
/// chosen path, or the chosen path itself where resolution fails.
fn resolve_path(path: &String) -> (r: String) {
    match absolutize_path(path) {
        Some(p) => p,
        None => path.clone(),
    }
}

/// Decides what the bytes read from `path` mean. Empty content under
/// `create_if_not_exists` yields a default document and the bytes to
/// write back; anything else parses or fails, and a failure publishes
/// nothing.
pub fn get_loaded_project(path: &String, contents: &Vec<u8>, create_if_not_exists: bool) -> (r:
    Result<LoadOutcome, LoadError>)
    ensures
        (create_if_not_exists && contents@.len() == 0) ==> (match r {
            Ok(o) => o.project.data@ == DocView::empty() && (match o.write_back {
                Some(b) => b@ == enc_doc(DocView::empty()),
                None => false,
            }),
            Err(_) => false,
        }),
        !(create_if_not_exists && contents@.len() == 0) ==> (match r {
            Ok(o) => dec_doc(contents@) == Some(o.project.data@) && o.write_back == None::<Vec<u8>>,
            Err(e) => e == LoadError::Parse && dec_doc(contents@) == None::<DocView>,
        }),
{
    if create_if_not_exists && contents.len() == 0 {
        let data = Document::default();
        let bytes = serialize(&data);
        Ok(
            LoadOutcome {
                project: LoadedProject { data, path: resolve_path(path) },
                write_back: Some(bytes),
            },
        )
    } else {
        match parse(contents) {
            Ok(data) => Ok(
                LoadOutcome {
                    project: LoadedProject { data, path: resolve_path(path) },
                    write_back: None,
                },
            ),
            Err(_) => Err(LoadError::Parse),
        }
    }
}

/// What "New Project" must produce once a save path is chosen: a default
/// document to publish, and its canonical bytes to write at that path.
pub fn new_project_payload(path: &String) -> (r: (LoadedProject, Vec<u8>))
    ensures
        r.0.data@ == DocView::empty(),
        r.1@ == enc_doc(DocView::empty()),
{
    let data = Document::default();
    let bytes = serialize(&data);
    (LoadedProject { data, path: resolve_path(path) }, bytes)
}

} // verus!
