//! A file system in memory.
use vstd::prelude::*;
use vstd::utf8::{decode_utf8, encode_utf8, valid_utf8};

use crate::paging::{
    copy_range, lossy_text, page_bytes, page_of, tail_bytes, tail_of, text_from_bytes, FilePage,
};
use crate::paths::path_is_absolute;
use crate::sse::utf8_text;
use crate::text::{join2, join_all, joined_with, same, split, split_text, texts};
use crate::text_map::TextMap;

verus! {

/// The parts of a path that name something: not the empty ones, and not a dot unless the path
/// starts with it.
pub open spec fn components(parts: Seq<Seq<char>>) -> Seq<Seq<char>>
    decreases parts.len(),
{
    if parts.len() == 0 {
        Seq::empty()
    } else if parts.last().len() == 0 || (parts.last() == "."@ && parts.len() > 1) {
        components(parts.drop_last())
    } else {
        components(parts.drop_last()).push(parts.last())
    }
}

/// The path in the form in which it names its file: two paths name the same file if they have the
/// same parts and both start at the root or neither does.
pub open spec fn path_key(path: Seq<char>) -> Seq<char> {
    let parts = joined_with(components(split(path, '/')), "/"@);
    if path.len() > 0 && path[0] == '/' {
        "/"@ + parts
    } else {
        parts
    }
}

fn clean_path(path: &str) -> (r: String)
    ensures
        r@ == path_key(path@),
{
    let parts = split_text(path, '/');
    let ghost all = texts(parts@);
    let mut kept: Vec<String> = Vec::new();
    let mut i: usize = 0;
    proof {
        assert(all.take(0) =~= Seq::<Seq<char>>::empty());
        assert(texts(kept@) =~= Seq::<Seq<char>>::empty());
    }
    while i < parts.len()
        invariant
            i <= parts.len(),
            all == texts(parts@),
            texts(kept@) == components(all.take(i as int)),
        decreases parts.len() - i,
    {
        proof {
            assert(all.take(i + 1).drop_last() =~= all.take(i as int));
            assert(all[i as int] == parts@[i as int]@);
        }
        if !parts[i].as_str().is_empty() && !(i > 0 && same(&parts[i], ".")) {
            let ghost before = texts(kept@);
            kept.push(parts[i].clone());
            proof {
                assert(texts(kept@) =~= before.push(parts@[i as int]@));
            }
        }
        i = i + 1;
    }
    proof {
        assert(all.take(all.len() as int) =~= all);
    }
    let joined = join_all(&kept, "/");
    if path_is_absolute(path) {
        join2("/", &joined)
    } else {
        joined
    }
}

/// Why a file cannot be read.
#[derive(Clone, Copy, Debug, PartialEq, Eq, Structural)]
pub enum FileError {
    /// There is none of that name.
    NotFound,
    /// It is no text.
    InvalidData,
}

/// Files in memory, by the path that names them. There are no directories.
#[derive(Debug)]
pub struct MemoryFileSystem {
    files: TextMap<Vec<u8>>,
}

impl View for MemoryFileSystem {
    type V = Map<Seq<char>, Seq<u8>>;

    closed spec fn view(&self) -> Map<Seq<char>, Seq<u8>> {
        self.files@.map_values(|bytes: Vec<u8>| bytes@)
    }
}

/// The text of a file, or why there is none.
pub open spec fn text_of_file(files: Map<Seq<char>, Seq<u8>>, path: Seq<char>) -> Result<
    Seq<char>,
    FileError,
> {
    if !files.contains_key(path_key(path)) {
        Err(FileError::NotFound)
    } else if valid_utf8(files[path_key(path)]) {
        Ok(decode_utf8(files[path_key(path)]))
    } else {
        Err(FileError::InvalidData)
    }
}

/// What a text or the reason why there is none is.
pub open spec fn file_text(value: Result<String, FileError>) -> Result<Seq<char>, FileError> {
    match value {
        Ok(text) => Ok(text@),
        Err(error) => Err(error),
    }
}

impl MemoryFileSystem {
    pub closed spec fn well_formed(&self) -> bool {
        self.files.well_formed()
    }

    pub fn new() -> (r: MemoryFileSystem)
        ensures
            r.well_formed(),
            r@ == Map::<Seq<char>, Seq<u8>>::empty(),
    {
        let out = MemoryFileSystem { files: TextMap::new() };
        proof {
            assert(out@ =~= Map::<Seq<char>, Seq<u8>>::empty());
        }
        out
    }

    /// Sets the content of a file.
    pub fn write(&mut self, path: &str, contents: Vec<u8>)
        requires
            old(self).well_formed(),
        ensures
            final(self).well_formed(),
            final(self)@ == old(self)@.insert(path_key(path@), contents@),
    {
        let ghost before = self@;
        let key = clean_path(path);
        let _ = self.files.insert(&key, contents);
        proof {
            assert(self@ =~= before.insert(path_key(path@), contents@));
        }
    }

    /// Sets the content of a file to a text.
    pub fn write_text(&mut self, path: &str, contents: &str)
        requires
            old(self).well_formed(),
        ensures
            final(self).well_formed(),
            final(self)@ == old(self)@.insert(path_key(path@), encode_utf8(contents@)),
    {
        let bytes = contents.as_bytes();
        let mut copy: Vec<u8> = Vec::new();
        let mut i: usize = 0;
        while i < bytes.len()
            invariant
                i <= bytes.len(),
                copy@ == bytes@.take(i as int),
            decreases bytes.len() - i,
        {
            copy.push(bytes[i]);
            i = i + 1;
        }
        proof {
            assert(copy@ =~= bytes@);
        }
        self.write(path, copy);
    }

    /// Starts a file that is empty, in place of the one of that name.
    pub fn create(&mut self, path: &str)
        requires
            old(self).well_formed(),
        ensures
            final(self).well_formed(),
            final(self)@ == old(self)@.insert(path_key(path@), Seq::<u8>::empty()),
    {
        self.write(path, Vec::new());
    }

    /// Adds bytes at the end of a file, which is there afterwards if it was not.
    pub fn append(&mut self, path: &str, bytes: &Vec<u8>)
        requires
            old(self).well_formed(),
        ensures
            final(self).well_formed(),
            final(self)@ == old(self)@.insert(
                path_key(path@),
                (if old(self)@.contains_key(path_key(path@)) {
                    old(self)@[path_key(path@)]
                } else {
                    Seq::empty()
                }) + bytes@,
            ),
    {
        let key = clean_path(path);
        let mut content: Vec<u8> = match self.files.get(&key) {
            Some(content) => copy_range(content, 0, content.len()),
            None => Vec::new(),
        };
        let ghost start = content@;
        proof {
            if self@.contains_key(key@) {
                assert(start =~= self@[key@]);
            }
        }
        let mut i: usize = 0;
        while i < bytes.len()
            invariant
                i <= bytes.len(),
                content@ == start + bytes@.take(i as int),
            decreases bytes.len() - i,
        {
            content.push(bytes[i]);
            i = i + 1;
            proof {
                assert(content@ =~= start + bytes@.take(i as int));
            }
        }
        proof {
            assert(bytes@.take(bytes@.len() as int) =~= bytes@);
        }
        self.write(path, content);
    }

    /// The text of a file, with replacement characters where it is none.
    pub fn read_text(&self, path: &str) -> (r: Option<String>)
        requires
            self.well_formed(),
        ensures
            match r {
                Some(text) => {
                    &&& self@.contains_key(path_key(path@))
                    &&& text@ == lossy_text(self@[path_key(path@)])
                    &&& valid_utf8(self@[path_key(path@)]) ==> text@ == decode_utf8(
                        self@[path_key(path@)],
                    )
                },
                None => !self@.contains_key(path_key(path@)),
            },
    {
        match self.files.get(&clean_path(path)) {
            Some(bytes) => {
                let text = text_from_bytes(bytes);
                proof {
                    if valid_utf8(bytes@) {
                        vstd::utf8::encode_utf8_decode_utf8(text@);
                    }
                }
                Some(text)
            },
            None => None,
        }
    }

    /// Whether there is a file of that name.
    pub fn has_file(&self, path: &str) -> (r: bool)
        requires
            self.well_formed(),
        ensures
            r == self@.contains_key(path_key(path@)),
    {
        self.files.contains_key(&clean_path(path))
    }

    /// The text of a file.
    pub fn read_to_string(&self, path: &str) -> (r: Result<String, FileError>)
        requires
            self.well_formed(),
        ensures
            file_text(r) == text_of_file(self@, path@),
    {
        match self.files.get(&clean_path(path)) {
            Some(bytes) => {
                let copy = copy_range(bytes, 0, bytes.len());
                proof {
                    assert(copy@ =~= bytes@);
                }
                match utf8_text(copy) {
                    Some(text) => {
                        proof {
                            vstd::utf8::encode_utf8_valid_utf8(text@);
                            vstd::utf8::encode_utf8_decode_utf8(text@);
                        }
                        Ok(text)
                    },
                    None => Err(FileError::InvalidData),
                }
            },
            None => Err(FileError::NotFound),
        }
    }

    /// A part of a file.
    pub fn read_page(&self, path: &str, offset: u64, limit: u64) -> (r: Result<FilePage, FileError>)
        requires
            self.well_formed(),
        ensures
            match r {
                Ok(page) => self@.contains_key(path_key(path@)) && page@ == page_of(
                    self@[path_key(path@)],
                    offset,
                    limit,
                ),
                Err(error) => !self@.contains_key(path_key(path@)) && error == FileError::NotFound,
            },
    {
        match self.files.get(&clean_path(path)) {
            Some(bytes) => Ok(page_bytes(bytes, offset, limit)),
            None => Err(FileError::NotFound),
        }
    }

    /// The end of a file, at most `max_bytes` long, from the first point on at which it is text.
    pub fn tail(&self, path: &str, max_bytes: u64) -> (r: Result<Vec<u8>, FileError>)
        requires
            self.well_formed(),
        ensures
            match r {
                Ok(bytes) => self@.contains_key(path_key(path@)) && bytes@ == tail_of(
                    self@[path_key(path@)],
                    max_bytes,
                ),
                Err(error) => !self@.contains_key(path_key(path@)) && error == FileError::NotFound,
            },
    {
        match self.files.get(&clean_path(path)) {
            Some(bytes) => Ok(tail_bytes(bytes, max_bytes)),
            None => Err(FileError::NotFound),
        }
    }
}

impl Default for MemoryFileSystem {
    fn default() -> (r: MemoryFileSystem)
        ensures
            r.well_formed(),
            r@ == Map::<Seq<char>, Seq<u8>>::empty(),
    {
        MemoryFileSystem::new()
    }
}

/// What is said of a file that is not there.
pub fn not_found() -> (r: &'static str)
    ensures
        r@ == "virtual file does not exist"@,
{
    "virtual file does not exist"
}

/// A text that was written is read back, and writing it leaves the other files as they were.
pub proof fn written_text_is_read_back(
    files: Map<Seq<char>, Seq<u8>>,
    path: Seq<char>,
    text: Seq<char>,
    other: Seq<char>,
)
    ensures
        text_of_file(files.insert(path_key(path), encode_utf8(text)), path) == Ok::<
            Seq<char>,
            FileError,
        >(text),
        path_key(other) != path_key(path) ==> text_of_file(
            files.insert(path_key(path), encode_utf8(text)),
            other,
        ) == text_of_file(files, other),
{
    vstd::utf8::encode_utf8_valid_utf8(text);
    vstd::utf8::encode_utf8_decode_utf8(text);
}

/// An empty part and a dot behind another part make no difference to a path, and every other part
/// counts; a path from the root and one that does not start there name different files.
pub proof fn paths_count_by_their_parts(parts: Seq<Seq<char>>, part: Seq<char>, path: Seq<char>)
    ensures
        part.len() == 0 ==> components(parts.push(part)) == components(parts),
        parts.len() > 0 && part == "."@ ==> components(parts.push(part)) == components(parts),
        part.len() > 0 && part != "."@ ==> components(parts.push(part)) == components(parts).push(
            part,
        ),
        components(seq!["."@]) == seq!["."@],
        path.len() > 0 && path[0] == '/' ==> path_key(path) == "/"@ + joined_with(
            components(split(path, '/')),
            "/"@,
        ),
        path.len() == 0 || path[0] != '/' ==> path_key(path) == joined_with(
            components(split(path, '/')),
            "/"@,
        ),
{
    assert(parts.push(part).drop_last() =~= parts);
    reveal_strlit(".");
    assert(seq!["."@].drop_last() =~= Seq::<Seq<char>>::empty());
    assert(components(Seq::empty()) =~= Seq::<Seq<char>>::empty());
    assert("."@.len() == 1);
    assert(Seq::<Seq<char>>::empty().push("."@) =~= seq!["."@]);
}

/// A file that is not there is not found, and one that is no text is not read as one.
pub proof fn files_are_read_if_they_are_text(
    files: Map<Seq<char>, Seq<u8>>,
    path: Seq<char>,
    bytes: Seq<u8>,
)
    ensures
        text_of_file(files.remove(path_key(path)), path) == Err::<Seq<char>, FileError>(
            FileError::NotFound,
        ),
        !valid_utf8(bytes) ==> text_of_file(files.insert(path_key(path), bytes), path) == Err::<
            Seq<char>,
            FileError,
        >(FileError::InvalidData),
{
}

} // verus!
