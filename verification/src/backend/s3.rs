//! The S3 store: how its objects are named, how its answers are read, and
//! which failures are worth another try.

use crate::backend::{
    file_path, list_path, list_path_of, path_of, with_option, BackendOptions, FileType,
    MaybeBackoff, OptionError,
};
use crate::id::{bytes_of_hex, id_from, is_hex, lemma_id_from, null_id, Id};
use vstd::prelude::*;
use vstd::string::StringExecFns;

verus! {

/// Seconds after which a new S3 store gives up retrying.
pub const S3_RETRY_SECS: u64 = 600;

/// The description of a repository in an S3 bucket.
#[derive(Clone, Debug, PartialEq, Eq)]
pub struct S3Backend {
    pub region: String,
    /// The address of the service, empty until it is known.
    pub endpoint_url: String,
    pub bucket_name: String,
    /// What the name of every object of the repository starts with.
    pub prefix: String,
    pub options: BackendOptions,
}

/// One line of the listing that the store gives of a directory.
#[derive(Clone, Debug, PartialEq, Eq)]
pub struct ListEntry {
    pub name: String,
    pub size: u32,
}

/// How a request that did not succeed is treated.
#[derive(Clone, Copy, Debug, PartialEq, Eq, Structural)]
pub enum Failure {
    /// Trying again cannot help: the request itself was refused.
    Permanent,
    /// Trying again may help.
    Transient,
}

/// What a status code says of a request: codes from 200 to 299 are a
/// success, codes from 400 to 499 a permanent failure, all others a
/// transient one.
pub open spec fn status_class(status_code: u16) -> Result<(), Failure> {
    if 200 <= status_code <= 299 {
        Ok(())
    } else if 400 <= status_code <= 499 {
        Err(Failure::Permanent)
    } else {
        Err(Failure::Transient)
    }
}

/// Tells from the status code of an answer whether the request succeeded,
/// and if not, whether it is worth another try.
pub fn check_error(status_code: u16) -> (r: Result<(), Failure>)
    ensures
        r == status_class(status_code),
{
    if 200 <= status_code && status_code <= 299 {
        Ok(())
    } else if 400 <= status_code && status_code <= 499 {
        Err(Failure::Permanent)
    } else {
        Err(Failure::Transient)
    }
}

/// The first and the last byte of a range of `length` bytes at `offset`, or
/// `None` for an empty range.
pub open spec fn range_of(offset: u32, length: u32) -> Option<(u64, u64)> {
    if length == 0 {
        None
    } else {
        Some((offset as u64, (offset + length - 1) as u64))
    }
}

/// The first and the last byte of a range of `length` bytes at `offset`, as
/// a request for a part of an object names them, or `None` for an empty
/// range.
pub fn byte_range(offset: u32, length: u32) -> (r: Option<(u64, u64)>)
    ensures
        r == range_of(offset, length),
{
    if length == 0 {
        None
    } else {
        Some((offset as u64, offset as u64 + length as u64 - 1))
    }
}

/// The identifier that a listed name stands for, if it is the hexadecimal
/// name of an identifier.
pub open spec fn listed_id(name: Seq<char>) -> Option<Id> {
    if name.len() == 64 && is_hex(name) {
        Some(id_from(bytes_of_hex(name)))
    } else {
        None
    }
}

/// The files that a listing names: for each entry whose name is the
/// hexadecimal name of an identifier, in the order of the listing, the
/// identifier and the size. Other entries are passed over.
pub open spec fn listed_files(entries: Seq<ListEntry>) -> Seq<(Id, u32)>
    decreases entries.len(),
{
    if entries.len() == 0 {
        Seq::empty()
    } else {
        let before = listed_files(entries.drop_last());
        match listed_id(entries.last().name@) {
            Some(id) => before.push((id, entries.last().size)),
            None => before,
        }
    }
}

/// What listing the files of a type gives. The configuration is listed by
/// asking whether it is there: if so it is one file with the all-zero
/// identifier and size 0. For every other type the answer is a listing.
pub open spec fn list_result(tpe: FileType, present: bool, entries: Seq<ListEntry>) -> Seq<
    (Id, u32),
> {
    if tpe == FileType::Config {
        if present {
            seq![(null_id(), 0u32)]
        } else {
            Seq::empty()
        }
    } else {
        listed_files(entries)
    }
}

/// The files that a listing names.
pub fn files_of_listing(entries: &Vec<ListEntry>) -> (files: Vec<(Id, u32)>)
    ensures
        files@ == listed_files(entries@),
{
    let mut files: Vec<(Id, u32)> = Vec::new();
    let mut i: usize = 0;
    while i < entries.len()
        invariant
            i <= entries@.len(),
            files@ == listed_files(entries@.take(i as int)),
        decreases entries@.len() - i,
    {
        let entry = &entries[i];
        proof {
            assert(entries@.take(i + 1).drop_last() =~= entries@.take(i as int));
        }
        match Id::from_hex(entry.name.as_str()) {
            Ok(id) => {
                proof {
                    lemma_id_from(id);
                }
                files.push((id, entry.size));
            },
            Err(_) => {},
        }
        i += 1;
    }
    assert(entries@.take(i as int) =~= entries@);
    files
}

impl S3Backend {
    /// The description of a repository in the bucket of the given name, in
    /// the region `eu-central-1`, without a prefix, that retries for
    /// `S3_RETRY_SECS` seconds.
    pub fn new(url: &str) -> (backend: S3Backend)
        ensures
            backend.bucket_name@ == url@,
            backend.region@ == "eu-central-1"@,
            backend.endpoint_url@ == Seq::<char>::empty(),
            backend.prefix@ == Seq::<char>::empty(),
            backend.options == (BackendOptions {
                backoff: MaybeBackoff(Some(S3_RETRY_SECS)),
                timeout: None,
            }),
    {
        S3Backend {
            region: String::from_str("eu-central-1"),
            endpoint_url: String::new(),
            bucket_name: String::from_str(url),
            prefix: String::new(),
            options: BackendOptions::new(MaybeBackoff(Some(S3_RETRY_SECS))),
        }
    }

    /// Records the address of the service.
    pub fn set_endpoint_url(&mut self, endpoint_url: &str)
        ensures
            final(self).endpoint_url@ == endpoint_url@,
            final(self).region == old(self).region,
            final(self).bucket_name == old(self).bucket_name,
            final(self).prefix == old(self).prefix,
            final(self).options == old(self).options,
    {
        self.endpoint_url = String::from_str(endpoint_url);
    }

    /// The name of the object that holds a file.
    pub fn url(&self, tpe: FileType, id: &Id) -> (url: String)
        ensures
            url@ == self.prefix@ + file_path(tpe, *id),
    {
        let path = path_of(tpe, id);
        let mut url = self.prefix.clone();
        url.append(path.as_str());
        url
    }

    /// The name under which the files of a type are listed.
    pub fn list_url(&self, tpe: FileType) -> (url: String)
        ensures
            url@ == self.prefix@ + list_path(tpe),
    {
        let path = list_path_of(tpe);
        let mut url = self.prefix.clone();
        url.append(path.as_str());
        url
    }

    /// Where the repository is, for a reader.
    pub open spec fn spec_location(&self) -> Seq<char> {
        "s3:"@ + self.endpoint_url@ + seq!['/'] + self.bucket_name@ + seq!['/'] + self.prefix@
    }

    /// Where the repository is, for a reader: `s3:`, the address of the
    /// service, the bucket and the prefix, with slashes between them.
    pub fn location(&self) -> (location: String)
        ensures
            location@ == self.spec_location(),
    {
        let mut location = String::from_str("s3:");
        location.append(self.endpoint_url.as_str());
        location.push('/');
        location.append(self.bucket_name.as_str());
        location.push('/');
        location.append(self.prefix.as_str());
        assert(location@ =~= self.spec_location());
        location
    }

    /// Sets an option from its name and its value as strings.
    pub fn set_option(&mut self, option: &str, value: &str) -> (r: Result<(), OptionError>)
        ensures
            final(self).region == old(self).region,
            final(self).endpoint_url == old(self).endpoint_url,
            final(self).bucket_name == old(self).bucket_name,
            final(self).prefix == old(self).prefix,
            match with_option(old(self).options, option@, value@) {
                Ok(options) => r is Ok && final(self).options == options,
                Err(e) => r == Err::<(), OptionError>(e) && final(self).options == old(
                    self,
                ).options,
            },
    {
        self.options.set_option(option, value)
    }

    /// What listing the files of a type gives, from what the store
    /// answered: whether the configuration is there, or the listing of the
    /// directory.
    pub fn list_with_size(tpe: FileType, present: bool, entries: &Vec<ListEntry>) -> (files: Vec<
        (Id, u32),
    >)
        ensures
            files@ == list_result(tpe, present, entries@),
    {
        match tpe {
            FileType::Config => {
                let mut files: Vec<(Id, u32)> = Vec::new();
                if present {
                    files.push((Id::default(), 0));
                }
                assert(files@ =~= list_result(tpe, present, entries@));
                files
            },
            _ => files_of_listing(entries),
        }
    }
}

} // verus!
