//! Tensors whose payload lives in a sibling file: range metadata parsed
//! from key/value pairs, and a per-model cache of loaded files.
//!
//! The library never touches the file system. The I/O layer around it asks
//! `has_file`, reads the file itself, hands the bytes to `store_file` once,
//! and every later request for the same location is served from the cache.

use vstd::prelude::*;

use crate::error::Error;
use crate::proto::StringEntryProto;
use crate::text::{decimal_digits, decimal_val, is_decimal_u64, parse_u64_decimal, str_eq};

verus! {

/// The key of an external-data entry, empty when absent.
pub open spec fn entry_key(p: StringEntryProto) -> Seq<char> {
    match p.key {
        Some(s) => s@,
        None => Seq::empty(),
    }
}

/// The value of an external-data entry, empty when absent.
pub open spec fn entry_value(p: StringEntryProto) -> Seq<char> {
    match p.value {
        Some(s) => s@,
        None => Seq::empty(),
    }
}

/// The value of the last entry carrying `key`, if any: a later entry
/// overwrites an earlier one with the same key.
pub open spec fn last_value_for(pairs: Seq<StringEntryProto>, key: Seq<char>) -> Option<Seq<char>>
    decreases pairs.len(),
{
    if pairs.len() == 0 {
        None
    } else if entry_key(pairs.last()) == key {
        Some(entry_value(pairs.last()))
    } else {
        last_value_for(pairs.drop_last(), key)
    }
}

/// What `offset` or `length` parse to: absent, or present and read as an
/// unsigned decimal, with anything unparsable treated as unset.
pub open spec fn parsed_u64(v: Option<Seq<char>>) -> Option<u64> {
    match v {
        None => None,
        Some(s) => if is_decimal_u64(s) {
            Some(decimal_val(decimal_digits(s)) as u64)
        } else {
            None
        },
    }
}

/// Byte-range metadata of one external tensor.
pub struct ExternalDataInfo {
    /// Relative path of the file holding the payload.
    pub location: String,
    /// First byte of the payload within the file; absent means zero.
    pub offset: Option<u64>,
    /// Payload length in bytes; absent means up to the end of the file.
    pub length: Option<u64>,
}

impl ExternalDataInfo {
    /// Parse external-data metadata from its key/value pairs.
    ///
    /// `location` is required; `offset` and `length` are optional numeric
    /// strings, and an invalid or absent number is treated as unset, not as
    /// an error. Unknown keys are ignored.
    #[verifier::rlimit(50)]
    pub fn from_key_value_pairs(pairs: &[StringEntryProto]) -> (r: Result<ExternalDataInfo, Error>)
        ensures
            r is Ok <==> last_value_for(pairs@, "location"@) is Some,
            r matches Ok(info) ==> {
                &&& Some(info.location@) == last_value_for(pairs@, "location"@)
                &&& info.offset == parsed_u64(last_value_for(pairs@, "offset"@))
                &&& info.length == parsed_u64(last_value_for(pairs@, "length"@))
            },
            r is Err ==> r->Err_0 is InvalidModel,
    {
        proof {
            reveal_strlit("");
        }
        let mut location: Option<String> = None;
        let mut offset: Option<u64> = None;
        let mut length: Option<u64> = None;
        let n = pairs.len();
        let mut i: usize = 0;
        while i < n
            invariant
                i <= n == pairs@.len(),
                match location {
                    Some(l) => last_value_for(pairs@.subrange(0, i as int), "location"@) == Some(
                        l@,
                    ),
                    None => last_value_for(pairs@.subrange(0, i as int), "location"@) is None,
                },
                offset == parsed_u64(last_value_for(pairs@.subrange(0, i as int), "offset"@)),
                length == parsed_u64(last_value_for(pairs@.subrange(0, i as int), "length"@)),
            decreases n - i,
        {
            let pair = &pairs[i];
            let key: &str = match &pair.key {
                Some(s) => s.as_str(),
                None => "",
            };
            let value: &str = match &pair.value {
                Some(s) => s.as_str(),
                None => "",
            };
            proof {
                reveal_strlit("");
                reveal_strlit("location");
                reveal_strlit("offset");
                reveal_strlit("length");
                assert("location"@.len() == 8);
                assert("offset"@.len() == 6);
                assert("length"@.len() == 6);
                assert("offset"@[0] == 'o');
                assert("length"@[0] == 'l');
                assert("location"@ != "offset"@);
                assert("location"@ != "length"@);
                assert("offset"@ != "length"@);
                assert(""@ =~= Seq::<char>::empty());
                assert(key@ == entry_key(pairs@[i as int]));
                assert(value@ == entry_value(pairs@[i as int]));
                let pre = pairs@.subrange(0, i as int);
                let post = pairs@.subrange(0, i + 1 as int);
                assert(post.drop_last() =~= pre);
                assert(post.last() == pairs@[i as int]);
            }
            if str_eq(key, "location") {
                location = Some(value.to_owned());
            } else if str_eq(key, "offset") {
                offset = parse_u64_decimal(value);
            } else if str_eq(key, "length") {
                length = parse_u64_decimal(value);
            }
            i = i + 1;
        }
        proof {
            assert(pairs@.subrange(0, n as int) =~= pairs@);
        }
        match location {
            Some(loc) => Ok(ExternalDataInfo { location: loc, offset, length }),
            None => Err(
                Error::InvalidModel(
                    "external data is missing the required location field".to_string(),
                ),
            ),
        }
    }

    /// The requested start of the byte range.
    pub open spec fn spec_start(self) -> int {
        match self.offset {
            Some(o) => o as int,
            None => 0,
        }
    }

    /// The requested end of the byte range within a file of `file_len` bytes.
    pub open spec fn spec_end(self, file_len: int) -> int {
        match self.length {
            Some(l) => self.spec_start() + l as int,
            None => file_len,
        }
    }

    /// Load this tensor's byte range through the given cache.
    pub fn load_data(&self, loader: &ExternalDataLoader) -> (r: Result<Vec<u8>, Error>)
        ensures
            loader.spec_file(self.location@) is None ==> r is Err && r->Err_0 is Io,
            loader.spec_file(self.location@) matches Some(f) ==> {
                &&& (r is Ok <==> self.spec_start() <= f.len() && self.spec_end(f.len() as int)
                    <= f.len())
                &&& r matches Ok(b) ==> b@ == f.subrange(
                    self.spec_start(),
                    self.spec_end(f.len() as int),
                )
                &&& r is Err ==> r->Err_0 is InvalidModel
            },
    {
        loader.load_data(self)
    }
}

/// One fully loaded external file, keyed by its location string.
pub struct CachedFile {
    pub location: String,
    pub data: Vec<u8>,
}

/// Lazily populated cache of external files; grows monotonically, never
/// evicts, and lives as long as its model.
pub struct ExternalDataLoader {
    pub files: Vec<CachedFile>,
}

/// The cached bytes for a location; a later `store_file` for the same
/// location wins.
pub open spec fn spec_lookup(files: Seq<CachedFile>, loc: Seq<char>) -> Option<Seq<u8>>
    decreases files.len(),
{
    if files.len() == 0 {
        None
    } else if files.last().location@ == loc {
        Some(files.last().data@)
    } else {
        spec_lookup(files.drop_last(), loc)
    }
}

impl ExternalDataLoader {
    /// An empty cache.
    pub fn new() -> (r: ExternalDataLoader)
        ensures
            r.files@.len() == 0,
            forall|loc: Seq<char>| r.spec_file(loc) is None,
    {
        ExternalDataLoader { files: Vec::new() }
    }

    /// The cached bytes for a location.
    pub open spec fn spec_file(self, loc: Seq<char>) -> Option<Seq<u8>> {
        spec_lookup(self.files@, loc)
    }

    /// Whether the file at `location` has already been loaded; a hit means
    /// no further read of the file is needed.
    pub fn has_file(&self, location: &str) -> (r: bool)
        ensures
            r == (self.spec_file(location@) is Some),
    {
        let n = self.files.len();
        let mut i: usize = 0;
        let mut found = false;
        while i < n
            invariant
                i <= n == self.files@.len(),
                found == (spec_lookup(self.files@.subrange(0, i as int), location@) is Some),
            decreases n - i,
        {
            proof {
                let pre = self.files@.subrange(0, i as int);
                let post = self.files@.subrange(0, i + 1 as int);
                assert(post.drop_last() =~= pre);
                assert(post.last() == self.files@[i as int]);
            }
            if str_eq(self.files[i].location.as_str(), location) {
                found = true;
            }
            i = i + 1;
        }
        proof {
            assert(self.files@.subrange(0, n as int) =~= self.files@);
        }
        found
    }

    /// Record the full contents of the file at `location`.
    pub fn store_file(&mut self, location: String, data: Vec<u8>)
        ensures
            final(self).files@ == old(self).files@.push((CachedFile { location, data })),
            final(self).spec_file(location@) == Some(data@),
    {
        self.files.push(CachedFile { location, data });
        proof {
            assert(self.files@.last() == self.files@[self.files@.len() - 1]);
            assert(self.files@.drop_last() =~= old(self).files@);
        }
    }

    /// Return the byte range that `info` asks for, out of the cached file.
    ///
    /// The range is validated hard: a start past the end of the file, or an
    /// end past the end of the file, is an invalid-model error, never a
    /// silent clamp. A location that was never stored is an I/O error; the
    /// layer that owns the file system is expected to store it first.
    pub fn load_data(&self, info: &ExternalDataInfo) -> (r: Result<Vec<u8>, Error>)
        ensures
            self.spec_file(info.location@) is None ==> r is Err && r->Err_0 is Io,
            self.spec_file(info.location@) matches Some(f) ==> {
                &&& (r is Ok <==> info.spec_start() <= f.len() && info.spec_end(f.len() as int)
                    <= f.len())
                &&& r matches Ok(b) ==> b@ == f.subrange(
                    info.spec_start(),
                    info.spec_end(f.len() as int),
                )
                &&& r is Err ==> r->Err_0 is InvalidModel
            },
    {
        let n = self.files.len();
        let mut i: usize = 0;
        let mut found: Option<usize> = None;
        while i < n
            invariant
                i <= n == self.files@.len(),
                match found {
                    Some(j) => j < i && spec_lookup(
                        self.files@.subrange(0, i as int),
                        info.location@,
                    ) == Some(self.files@[j as int].data@),
                    None => spec_lookup(self.files@.subrange(0, i as int), info.location@) is None,
                },
            decreases n - i,
        {
            proof {
                let pre = self.files@.subrange(0, i as int);
                let post = self.files@.subrange(0, i + 1 as int);
                assert(post.drop_last() =~= pre);
                assert(post.last() == self.files@[i as int]);
            }
            if str_eq(self.files[i].location.as_str(), info.location.as_str()) {
                found = Some(i);
            }
            i = i + 1;
        }
        proof {
            assert(self.files@.subrange(0, n as int) =~= self.files@);
        }
        let j = match found {
            Some(j) => j,
            None => {
                return Err(Error::Io("external data file has not been loaded".to_string()));
            },
        };
        let file = &self.files[j].data;
        let flen = file.len();
        let start_u64: u64 = match info.offset {
            Some(o) => o,
            None => 0,
        };
        if start_u64 > flen as u64 {
            return Err(Error::InvalidModel("external data offset exceeds file size".to_string()));
        }
        let start = start_u64 as usize;
        let end: usize = match info.length {
            Some(l) => {
                if l > (flen - start) as u64 {
                    return Err(
                        Error::InvalidModel("external data range exceeds file size".to_string()),
                    );
                }
                start + (l as usize)
            },
            None => flen,
        };
        Ok(crate::wire::copy_range(file.as_slice(), start, end))
    }
}

} // verus!
