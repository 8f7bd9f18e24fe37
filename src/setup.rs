//! Checks made before any work starts, and the working directory layout.
use vstd::prelude::*;
use vstd::string::StringSliceAdditionalSpecFns;

verus! {

/// Why a run cannot start.
#[derive(Debug, Clone, Copy, PartialEq, Eq, Structural)]
pub enum SetupError {
    /// The transcoder is not on the search path.
    MissingTranscoder,
    /// The perceptual-quality tool is not on the search path.
    MissingQualityTool,
    /// The input file does not exist.
    MissingInput,
    /// The input file name has no extension.
    NoExtension,
    /// The input file's extension is not one of the supported formats.
    UnsupportedExtension,
}

/// The audio file extensions that the run accepts.
pub open spec fn is_supported_extension(e: Seq<u8>) -> bool {
    ||| e == "flac".spec_bytes()
    ||| e == "wav".spec_bytes()
    ||| e == "opus".spec_bytes()
    ||| e == "ogg".spec_bytes()
    ||| e == "m4a".spec_bytes()
    ||| e == "aac".spec_bytes()
    ||| e == "mp3".spec_bytes()
}

/// Whether `a` and `b` hold the same bytes.
pub fn bytes_equal(a: &[u8], b: &[u8]) -> (r: bool)
    ensures
        r == (a@ == b@),
{
    if a.len() != b.len() {
        return false;
    }
    let mut i: usize = 0;
    while i < a.len()
        invariant
            a@.len() == b@.len(),
            i <= a@.len(),
            forall|j: int| 0 <= j < i ==> a@[j] == b@[j],
        decreases a@.len() - i,
    {
        if a[i] != b[i] {
            return false;
        }
        i = i + 1;
    }
    assert(a@ =~= b@);
    true
}

/// Whether the extension `ext` (without its point) names a supported format.
pub fn supported_extension(ext: &[u8]) -> (r: bool)
    ensures
        r == is_supported_extension(ext@),
{
    bytes_equal(ext, "flac".as_bytes()) || bytes_equal(ext, "wav".as_bytes()) || bytes_equal(
        ext,
        "opus".as_bytes(),
    ) || bytes_equal(ext, "ogg".as_bytes()) || bytes_equal(ext, "m4a".as_bytes()) || bytes_equal(
        ext,
        "aac".as_bytes(),
    ) || bytes_equal(ext, "mp3".as_bytes())
}

/// Decides whether a run may start, checking in this order: both tools
/// found, the input present, its extension present and supported.
pub fn check_input(
    transcoder_found: bool,
    quality_tool_found: bool,
    input_exists: bool,
    extension: Option<&[u8]>,
) -> (r: Result<(), SetupError>)
    ensures
        r == (if !transcoder_found {
            Err(SetupError::MissingTranscoder)
        } else if !quality_tool_found {
            Err(SetupError::MissingQualityTool)
        } else if !input_exists {
            Err(SetupError::MissingInput)
        } else {
            match extension {
                None => Err(SetupError::NoExtension),
                Some(e) => if is_supported_extension(e@) {
                    Ok(())
                } else {
                    Err(SetupError::UnsupportedExtension)
                },
            }
        }),
{
    if !transcoder_found {
        return Err(SetupError::MissingTranscoder);
    }
    if !quality_tool_found {
        return Err(SetupError::MissingQualityTool);
    }
    if !input_exists {
        return Err(SetupError::MissingInput);
    }
    match extension {
        None => Err(SetupError::NoExtension),
        Some(e) => {
            if supported_extension(e) {
                Ok(())
            } else {
                Err(SetupError::UnsupportedExtension)
            }
        },
    }
}

/// The directories of a run's working tree.
#[derive(Debug, Clone, Copy, PartialEq, Eq, Structural)]
pub enum WorkDir {
    /// The root of the tree; it also holds the model and the list file.
    Root,
    /// The segments cut from the input.
    Segments,
    /// The trial encodes.
    Probes,
    /// The final encodes of the segments, to be concatenated.
    Concat,
}

impl WorkDir {
    /// The directory's path, relative to where the run is started.
    pub fn path(&self) -> (r: &'static str)
        ensures
            r@ == (match *self {
                WorkDir::Root => "temp"@,
                WorkDir::Segments => "temp/segments"@,
                WorkDir::Probes => "temp/probes"@,
                WorkDir::Concat => "temp/conc"@,
            }),
    {
        match self {
            WorkDir::Root => "temp",
            WorkDir::Segments => "temp/segments",
            WorkDir::Probes => "temp/probes",
            WorkDir::Concat => "temp/conc",
        }
    }
}

/// The directories of the working tree in the order they are created: the
/// root first, so that recreating it cannot wipe the others.
pub open spec fn work_dir_at(k: int) -> WorkDir {
    if k == 0 {
        WorkDir::Root
    } else if k == 1 {
        WorkDir::Segments
    } else if k == 2 {
        WorkDir::Probes
    } else {
        WorkDir::Concat
    }
}

/// `states` records recreating the directories before position `n` in
/// order: the call for the directory at `k` took `states[k]`, the tree as
/// the call before it left it, and returned `states[k + 1]`.
pub open spec fn recreated_in_order<S, E, F: Fn(S, WorkDir) -> Result<S, E>>(
    recreate: F,
    states: Seq<S>,
    n: int,
) -> bool {
    &&& 0 <= n <= 4
    &&& states.len() == n + 1
    &&& forall|k: int|
        0 <= k < n ==> recreate.ensures(
            (states[k], work_dir_at(k)),
            Ok::<S, E>(#[trigger] states[k + 1]),
        )
}

/// All four directories were recreated in order, starting from `tree`, and
/// the last call left `done`.
pub open spec fn recreated_all<S, E, F: Fn(S, WorkDir) -> Result<S, E>>(
    recreate: F,
    tree: S,
    done: S,
) -> bool {
    exists|states: Seq<S>|
        {
            &&& recreated_in_order::<S, E, F>(recreate, states, 4)
            &&& states[0] == tree
            &&& states[4] == done
        }
}

/// The directories before some position `k` were recreated in order,
/// starting from `tree`, and the call for the directory at `k` returned `e`.
pub open spec fn recreate_failed<S, E, F: Fn(S, WorkDir) -> Result<S, E>>(
    recreate: F,
    tree: S,
    e: E,
) -> bool {
    exists|k: int, states: Seq<S>|
        {
            &&& 0 <= k < 4
            &&& recreated_in_order::<S, E, F>(recreate, states, k)
            &&& states[0] == tree
            &&& recreate.ensures((states[k], work_dir_at(k)), Err::<S, E>(e))
        }
}

/// Creates the working tree afresh: `recreate` removes a directory where it
/// exists, creates it empty, and hands the tree on. The root goes first,
/// then the directories under it, each call taking the tree that the one
/// before returned. The first error ends the work: it consumes the tree,
/// so no later directory can be touched.
pub fn create_all_dirs<S, E, F: Fn(S, WorkDir) -> Result<S, E>>(tree: S, recreate: F) -> (r: Result<
    S,
    E,
>)
    requires
        forall|t: S, d: WorkDir| recreate.requires((t, d)),
    ensures
        r matches Ok(done) ==> recreated_all::<S, E, F>(recreate, tree, done),
        r matches Err(e) ==> recreate_failed::<S, E, F>(recreate, tree, e),
{
    let dirs = [WorkDir::Root, WorkDir::Segments, WorkDir::Probes, WorkDir::Concat];
    let ghost mut states: Seq<S> = seq![tree];
    let mut current = tree;
    let mut i: usize = 0;
    while i < 4
        invariant
            i <= 4,
            forall|j: int| 0 <= j < 4 ==> #[trigger] dirs@[j] == work_dir_at(j),
            forall|t: S, d: WorkDir| recreate.requires((t, d)),
            recreated_in_order::<S, E, F>(recreate, states, i as int),
            states[0] == tree,
            states[i as int] == current,
        decreases 4 - i,
    {
        let d = dirs[i];
        assert(d == work_dir_at(i as int));
        let ghost before = current;
        let answer = recreate(current, d);
        let ghost answered = answer;
        match answer {
            Ok(next) => {
                assert(recreate.ensures((before, d), answered));
                proof {
                    states = states.push(next);
                }
                current = next;
            },
            Err(e) => {
                assert(recreate.ensures((before, d), answered));
                assert(recreated_in_order::<S, E, F>(recreate, states, i as int));
                return Err(e);
            },
        }
        i = i + 1;
    }
    assert(recreated_in_order::<S, E, F>(recreate, states, 4));
    Ok(current)
}

} // verus!
