//! The session state machine: one immutable state snapshot, a set of events,
//! and a pure transition relating the state after an event to the state
//! before it. The host UI performs the reads and renders; it only hands the
//! resulting events back in.

use vstd::prelude::*;
use vstd::seq_lib::group_seq_properties;
use vstd::string::StringExecFns;
use crate::json::JsonValue;
use crate::text::contains_seq;
use crate::text::str_contains;

verus! {

/// One successfully loaded file, held for the session.
#[derive(PartialEq, Eq, Debug, Clone)]
pub struct FileDetails {
    pub name: String,
    pub file_type: String,
    pub data: JsonValue,
}

/// A file announced by the picker or drop zone, before its bytes are read.
#[derive(PartialEq, Eq, Debug, Clone)]
pub struct PendingFile {
    pub name: String,
    pub file_type: String,
}

/// The errors that end a batch.
#[derive(PartialEq, Eq, Debug)]
pub enum LoadError {
    /// A file's reported MIME type does not contain "json"; carries the name.
    UnsupportedFileType(String),
    /// The platform byte read failed.
    ReadError,
    /// The bytes are not valid JSON; carries the file name and the parser's
    /// diagnostic.
    ParseError(String, String),
}

impl LoadError {
    /// The user-visible message for this error.
    pub open spec fn message_model(self) -> Seq<char> {
        match self {
            LoadError::UnsupportedFileType(n) => "File "@ + n@ + " is not a JSON file"@,
            LoadError::ReadError => "failed to read file"@,
            LoadError::ParseError(n, d) => "failed to parse file: "@ + n@ + ": "@ + d@,
        }
    }

    /// Renders the user-visible message, matching [`Self::message_model`].
    pub fn message(&self) -> (r: String)
        ensures
            r@ == self.message_model(),
    {
        match self {
            LoadError::UnsupportedFileType(n) => {
                let r = String::from_str("File ").concat(n.as_str()).concat(
                    " is not a JSON file");
                proof {
                    assert(r@ =~= self.message_model());
                }
                r
            }
            LoadError::ReadError => String::from_str("failed to read file"),
            LoadError::ParseError(n, d) => {
                let r = String::from_str("failed to parse file: ").concat(n.as_str()).concat(
                    ": ").concat(d.as_str());
                proof {
                    assert(r@ =~= self.message_model());
                }
                r
            }
        }
    }
}

/// The events the session reacts to.
#[derive(PartialEq, Eq, Debug)]
pub enum Msg {
    /// A file's bytes were read and parsed: name, MIME type, parsed value.
    Loaded(String, String, JsonValue),
    /// A batch of files was selected or dropped and passed the MIME check.
    Files(Vec<PendingFile>),
    /// A batch ended in an error with this message.
    Error(String),
    /// The loading indicator was switched.
    Loading(bool),
}

/// The names of a reader list, in order.
pub open spec fn reader_names(rs: Seq<String>) -> Seq<Seq<char>> {
    rs.map_values(|s: String| s@)
}

/// The session state. The in-flight reads of the host are modeled by the
/// list of their file names, one per dispatched read, newest last.
#[derive(Debug)]
pub struct App {
    pub readers: Vec<String>,
    pub files: Vec<FileDetails>,
    pub is_error: (bool, String),
    pub is_loading: bool,
}

impl App {
    /// The fresh session: nothing loaded, no error, not loading.
    pub fn create() -> (r: App)
        ensures
            r.readers@.len() == 0,
            r.files@.len() == 0,
            r.is_error.0 == false,
            r.is_error.1@ == Seq::<char>::empty(),
            r.is_loading == false,
    {
        App {
            readers: Vec::new(),
            files: Vec::new(),
            is_error: (false, String::new()),
            is_loading: false,
        }
    }

    /// Reacts to one event; always requests a redraw.
    ///
    /// A `Loaded` file is appended and its read retired; an `Error` clears
    /// every accumulated file; `Files` records the dispatched reads; the
    /// error flag is cleared by any successful event that touches it.
    pub fn update(&mut self, msg: Msg) -> (redraw: bool)
        ensures
            redraw,
            (msg matches Msg::Loaded(n, t, d) ==> {
                &&& final(self).files@ == old(self).files@.push(FileDetails {
                    name: n,
                    file_type: t,
                    data: d,
                })
                &&& reader_names(final(self).readers@) == reader_names(old(self).readers@)
                    .filter(|v: Seq<char>| v != n@)
                &&& final(self).is_error.0 == false
                &&& final(self).is_error.1@ == Seq::<char>::empty()
                &&& final(self).is_loading == false
            }),
            (msg matches Msg::Files(fs) ==> {
                &&& final(self).files == old(self).files
                &&& reader_names(final(self).readers@) == reader_names(old(self).readers@)
                    + fs@.map_values(|p: PendingFile| p.name@)
                &&& (fs@.len() > 0 ==> final(self).is_error.0 == false
                    && final(self).is_error.1@ == Seq::<char>::empty())
                &&& (fs@.len() == 0 ==> final(self).is_error == old(self).is_error)
                &&& final(self).is_loading == false
            }),
            (msg matches Msg::Error(m) ==> {
                &&& final(self).files@.len() == 0
                &&& final(self).readers == old(self).readers
                &&& final(self).is_error.0 == true
                &&& final(self).is_error.1 == m
                &&& final(self).is_loading == false
            }),
            (msg matches Msg::Loading(b) ==> {
                &&& final(self).files == old(self).files
                &&& final(self).readers == old(self).readers
                &&& final(self).is_error == old(self).is_error
                &&& final(self).is_loading == b
            }),
    {
        broadcast use group_seq_properties;

        match msg {
            Msg::Loaded(file_name, file_type, data) => {
                let ghost pred = |v: Seq<char>| v != file_name@;
                let mut kept: Vec<String> = Vec::new();
                let mut i: usize = 0;
                while i < self.readers.len()
                    invariant
                        i <= self.readers@.len(),
                        reader_names(kept@) =~= reader_names(
                            self.readers@.subrange(0, i as int)).filter(pred),
                        pred == (|v: Seq<char>| v != file_name@),
                    decreases self.readers@.len() - i,
                {
                    let ghost prefix = reader_names(self.readers@.subrange(0, i as int));
                    let ghost one = seq![self.readers@[i as int]@];
                    proof {
                        reveal_with_fuel(Seq::filter, 2);
                        assert(reader_names(self.readers@.subrange(0, i + 1))
                            =~= prefix + one);
                        Seq::filter_distributes_over_add(prefix, one, pred);
                        assert(one.drop_last() =~= Seq::<Seq<char>>::empty());
                        assert(Seq::<Seq<char>>::empty().filter(pred)
                            =~= Seq::<Seq<char>>::empty());
                        assert(one.last() == one[0]);
                        assert(one.filter(pred) =~= if pred(one[0]) {
                            seq![one[0]]
                        } else {
                            Seq::<Seq<char>>::empty()
                        });
                    }
                    if !(self.readers[i] == file_name) {
                        kept.push(self.readers[i].clone());
                        proof {
                            assert(reader_names(kept@) =~= reader_names(
                                self.readers@.subrange(0, i + 1)).filter(pred));
                        }
                    } else {
                        proof {
                            assert(reader_names(kept@) =~= reader_names(
                                self.readers@.subrange(0, i + 1)).filter(pred));
                        }
                    }
                    i = i + 1;
                }
                proof {
                    assert(self.readers@.subrange(0, self.readers@.len() as int)
                        =~= self.readers@);
                }
                self.readers = kept;
                self.files.push(FileDetails {
                    name: file_name,
                    file_type,
                    data,
                });
                self.is_error = (false, String::new());
                self.is_loading = false;
                true
            }
            Msg::Files(files) => {
                self.is_loading = true;
                let ghost fs = files@;
                let ghost initial_readers = self.readers@;
                let mut files = files;
                let mut i: usize = 0;
                while i < files.len()
                    invariant
                        i <= fs.len(),
                        files@ == fs,
                        reader_names(self.readers@) =~= reader_names(initial_readers)
                            + fs.subrange(0, i as int).map_values(|p: PendingFile| p.name@),
                        i > 0 ==> self.is_error.0 == false
                            && self.is_error.1@ == Seq::<char>::empty(),
                        i == 0 ==> self.is_error == old(self).is_error,
                        self.files == old(self).files,
                    decreases fs.len() - i,
                {
                    let ghost before = self.readers@;
                    self.readers.push(files[i].name.clone());
                    self.is_error = (false, String::new());
                    i = i + 1;
                    proof {
                        assert(reader_names(self.readers@) =~= reader_names(before)
                            + seq![fs[i - 1].name@]);
                        assert(reader_names(initial_readers)
                            + fs.subrange(0, i as int).map_values(|p: PendingFile| p.name@)
                            =~= (reader_names(initial_readers)
                                + fs.subrange(0, i - 1).map_values(
                                    |p: PendingFile| p.name@)) + seq![fs[i - 1].name@]);
                    }
                }
                proof {
                    assert(fs.subrange(0, fs.len() as int) =~= fs);
                }
                self.is_loading = false;
                true
            }
            Msg::Error(message) => {
                self.files.clear();
                self.is_error = (true, message);
                self.is_loading = false;
                true
            }
            Msg::Loading(is_loading) => {
                self.is_loading = is_loading;
                true
            }
        }
    }
}

/// Every file of the batch reports a MIME type containing "json".
pub open spec fn batch_ok(fs: Seq<PendingFile>) -> bool {
    forall|k: int| 0 <= k < fs.len() ==> contains_seq(#[trigger] fs[k].file_type@, "json"@)
}

/// `k` is the first file of the batch whose MIME type lacks "json".
pub open spec fn first_unsupported(fs: Seq<PendingFile>, k: int) -> bool {
    &&& 0 <= k < fs.len()
    &&& !contains_seq(fs[k].file_type@, "json"@)
    &&& forall|j: int| 0 <= j < k ==> contains_seq(#[trigger] fs[j].file_type@, "json"@)
}

/// `m` rejects the batch, naming the file called `n`.
pub open spec fn rejects_with(m: Msg, n: Seq<char>) -> bool {
    m matches Msg::Error(s) && s@ == "File "@ + n + " is not a JSON file"@
}

/// Screens a batch before any read begins: every file whose MIME type does
/// not contain "json" rejects the whole batch with a message naming the
/// first offender; otherwise the batch goes on to be read.
pub fn upload_files(files: Option<Vec<PendingFile>>) -> (m: Msg)
    ensures
        files is None ==> (m matches Msg::Files(fs) && fs@.len() == 0),
        files matches Some(fs) ==> (batch_ok(fs@) ==> m == Msg::Files(fs)),
        files matches Some(fs) ==> (!batch_ok(fs@) ==> exists|k: int|
            #[trigger] first_unsupported(fs@, k) && rejects_with(m, fs@[k].name@)),
{
    match files {
        None => Msg::Files(Vec::new()),
        Some(fs) => {
            proof {
                assert(files is Some);
                assert(files->0 == fs);
            }
            let mut i: usize = 0;
            while i < fs.len()
                invariant
                    i <= fs@.len(),
                    files == Option::Some(fs),
                    forall|j: int| 0 <= j < i ==> contains_seq(#[trigger] fs@[j].file_type@,
                        "json"@),
                decreases fs@.len() - i,
            {
                if !str_contains(fs[i].file_type.as_str(), "json") {
                    let err = LoadError::UnsupportedFileType(fs[i].name.clone());
                    let text = err.message();
                    proof {
                        assert(first_unsupported(fs@, i as int));
                        assert(text@ == "File "@ + fs@[i as int].name@
                            + " is not a JSON file"@);
                    }
                    return Msg::Error(text);
                }
                i = i + 1;
            }
            Msg::Files(fs)
        }
    }
}

} // verus!
