//! Choosing a store from a URL, and what all stores have in common.

use crate::backend::s3::{S3Backend, S3_RETRY_SECS};
use crate::backend::{
    same_str, with_option, BackendOptions, MaybeBackoff, OptionError, RETRY_SECS,
};
use vstd::prelude::*;
use vstd::string::StringExecFns;

verus! {

/// The kinds of stores.
#[derive(Clone, Copy, Debug, PartialEq, Eq, Hash, Structural)]
pub enum BackendKind {
    Local,
    Rest,
    Rclone,
    S3,
}

/// A repository in a directory of the local file system.
#[derive(Clone, Debug, PartialEq, Eq)]
pub struct LocalBackend {
    pub path: String,
    pub options: BackendOptions,
}

/// A repository behind a REST server.
#[derive(Clone, Debug, PartialEq, Eq)]
pub struct RestBackend {
    pub url: String,
    pub options: BackendOptions,
}

/// A repository on a remote that rclone reaches.
#[derive(Clone, Debug, PartialEq, Eq)]
pub struct RcloneBackend {
    pub url: String,
    pub options: BackendOptions,
}

/// A store of one of the kinds.
#[derive(Clone, Debug, PartialEq, Eq)]
pub enum ChooseBackend {
    Local(LocalBackend),
    Rest(RestBackend),
    Rclone(RcloneBackend),
    S3(S3Backend),
}

/// Why a URL names no store.
#[derive(Clone, Debug, PartialEq, Eq)]
pub enum BackendError {
    /// The URL starts with a scheme that names no kind of store.
    UnsupportedBackend(String),
}

/// What a store is, as far as all kinds have it: the kind, the path or
/// address, and the options.
pub struct BackendView {
    pub kind: BackendKind,
    pub path: Seq<char>,
    pub options: BackendOptions,
}

/// The number of characters before the first colon, or the length of the
/// string where it has no colon.
pub open spec fn scheme_len(url: Seq<char>) -> int
    decreases url.len(),
{
    if url.len() == 0 || url[0] == ':' {
        0
    } else {
        1 + scheme_len(url.drop_first())
    }
}

/// Whether a scheme is the letter of a drive.
pub open spec fn is_drive(scheme: Seq<char>) -> bool {
    scheme.len() == 1 && ('a' <= scheme[0] <= 'z' || 'A' <= scheme[0] <= 'Z')
}

/// The kind of store and the path that a URL names, or the scheme that
/// names no store. Where drives are recognised, a single letter before the
/// colon makes the whole URL a local path. Else the scheme before the first
/// colon decides, and the path is what follows that colon. A URL without a
/// colon is a local path.
pub open spec fn parse_url(url: Seq<char>, drives: bool) -> Result<
    (BackendKind, Seq<char>),
    Seq<char>,
> {
    let n = scheme_len(url);
    if n == url.len() {
        Ok((BackendKind::Local, url))
    } else {
        let scheme = url.take(n);
        let path = url.skip(n + 1);
        if drives && is_drive(scheme) {
            Ok((BackendKind::Local, url))
        } else if scheme == "rclone"@ {
            Ok((BackendKind::Rclone, path))
        } else if scheme == "rest"@ {
            Ok((BackendKind::Rest, path))
        } else if scheme == "local"@ {
            Ok((BackendKind::Local, path))
        } else if scheme == "s3"@ {
            Ok((BackendKind::S3, path))
        } else {
            Err(scheme)
        }
    }
}

/// The options of a new store of a kind: it retries, an S3 store for
/// `S3_RETRY_SECS` seconds and any other for `RETRY_SECS`, and has no
/// timeout.
pub open spec fn new_options(kind: BackendKind) -> BackendOptions {
    BackendOptions {
        backoff: MaybeBackoff(
            Some(
                if kind == BackendKind::S3 {
                    S3_RETRY_SECS
                } else {
                    RETRY_SECS
                },
            ),
        ),
        timeout: None,
    }
}

/// The characters before the first colon are as many as `scheme_len` says.
pub proof fn lemma_scheme_len(head: Seq<char>, tail: Seq<char>)
    requires
        !head.contains(':'),
    ensures
        scheme_len(head) == head.len(),
        scheme_len(head + seq![':'] + tail) == head.len(),
    decreases head.len(),
{
    let url = head + seq![':'] + tail;
    if head.len() == 0 {
        assert(url[0] == ':');
    } else {
        assert(head.contains(head[0]));
        assert(url[0] == head[0]);
        let rest = head.drop_first();
        assert forall|c: char| rest.contains(c) implies head.contains(c) by {
            let i = choose|i: int| 0 <= i < rest.len() && rest[i] == c;
            assert(head[i + 1] == c);
        }
        lemma_scheme_len(rest, tail);
        assert(url.drop_first() =~= rest + seq![':'] + tail);
    }
}

/// The scheme that names a kind of store in a URL.
pub open spec fn scheme_of(kind: BackendKind) -> Seq<char> {
    match kind {
        BackendKind::Local => "local"@,
        BackendKind::Rest => "rest"@,
        BackendKind::Rclone => "rclone"@,
        BackendKind::S3 => "s3"@,
    }
}

/// A URL that is made of the scheme of a kind, a colon and a path names a
/// store of that kind at that path, whether drives are recognised or not.
pub proof fn lemma_scheme_names_its_kind(kind: BackendKind, path: Seq<char>, drives: bool)
    ensures
        parse_url(scheme_of(kind) + seq![':'] + path, drives) == Ok::<
            (BackendKind, Seq<char>),
            Seq<char>,
        >((kind, path)),
{
    reveal_strlit("local");
    reveal_strlit("rest");
    reveal_strlit("rclone");
    reveal_strlit("s3");
    let scheme = scheme_of(kind);
    let url = scheme + seq![':'] + path;
    assert(!scheme.contains(':')) by {
        if scheme.contains(':') {
            let i = choose|i: int| 0 <= i < scheme.len() && scheme[i] == ':';
            assert(scheme[i] != ':');
        }
    }
    lemma_scheme_len(scheme, path);
    assert(url.take(scheme.len() as int) =~= scheme);
    assert(url.skip(scheme.len() as int + 1) =~= path);
}

/// `str::split_once` splits a string at the first occurrence of a
/// character: it gives what stands before it and what stands after it, or
/// `None` where the character does not occur.
#[verifier::external_body]
fn split_once<'a>(s: &'a str, delimiter: char) -> (r: Option<(&'a str, &'a str)>)
    ensures
        match r {
            Some((head, tail)) => s@ == head@ + seq![delimiter] + tail@ && !head@.contains(
                delimiter,
            ),
            None => !s@.contains(delimiter),
        },
{
    s.split_once(delimiter)
}

/// `std::path::is_separator` tells whether a character separates the parts
/// of a path on this platform.
pub assume_specification[ std::path::is_separator ](c: char) -> (r: bool)
;

impl LocalBackend {
    /// A repository in the directory at `path`.
    pub fn new(path: &str) -> (backend: LocalBackend)
        ensures
            backend.path@ == path@,
            backend.options == new_options(BackendKind::Local),
    {
        LocalBackend {
            path: String::from_str(path),
            options: BackendOptions::new(MaybeBackoff(Some(RETRY_SECS))),
        }
    }
}

impl RestBackend {
    /// A repository behind the REST server at `url`.
    pub fn new(url: &str) -> (backend: RestBackend)
        ensures
            backend.url@ == url@,
            backend.options == new_options(BackendKind::Rest),
    {
        RestBackend {
            url: String::from_str(url),
            options: BackendOptions::new(MaybeBackoff(Some(RETRY_SECS))),
        }
    }
}

impl RcloneBackend {
    /// A repository on the rclone remote `url`.
    pub fn new(url: &str) -> (backend: RcloneBackend)
        ensures
            backend.url@ == url@,
            backend.options == new_options(BackendKind::Rclone),
    {
        RcloneBackend {
            url: String::from_str(url),
            options: BackendOptions::new(MaybeBackoff(Some(RETRY_SECS))),
        }
    }
}

impl View for ChooseBackend {
    type V = BackendView;

    open spec fn view(&self) -> BackendView {
        match self {
            ChooseBackend::Local(local) => BackendView {
                kind: BackendKind::Local,
                path: local.path@,
                options: local.options,
            },
            ChooseBackend::Rest(rest) => BackendView {
                kind: BackendKind::Rest,
                path: rest.url@,
                options: rest.options,
            },
            ChooseBackend::Rclone(rclone) => BackendView {
                kind: BackendKind::Rclone,
                path: rclone.url@,
                options: rclone.options,
            },
            ChooseBackend::S3(s3) => BackendView {
                kind: BackendKind::S3,
                path: s3.bucket_name@,
                options: s3.options,
            },
        }
    }
}

/// What `from_url` gives for what `parse_url` says: a new store of the kind
/// at the path, or the scheme that names none.
pub open spec fn is_chosen(
    parsed: Result<(BackendKind, Seq<char>), Seq<char>>,
    r: Result<ChooseBackend, BackendError>,
) -> bool {
    match parsed {
        Ok((kind, path)) => {
            &&& r matches Ok(backend)
            &&& backend@ == (BackendView { kind, path, options: new_options(kind) })
            &&& backend matches ChooseBackend::S3(s3) ==> {
                &&& s3.region@ == "eu-central-1"@
                &&& s3.endpoint_url@ == Seq::<char>::empty()
                &&& s3.prefix@ == Seq::<char>::empty()
            }
        },
        Err(scheme) => {
            &&& r matches Err(BackendError::UnsupportedBackend(name))
            &&& name@ == scheme
        },
    }
}

impl ChooseBackend {
    /// The kind of the store.
    pub fn kind(&self) -> (kind: BackendKind)
        ensures
            kind == self@.kind,
    {
        match self {
            ChooseBackend::Local(_) => BackendKind::Local,
            ChooseBackend::Rest(_) => BackendKind::Rest,
            ChooseBackend::Rclone(_) => BackendKind::Rclone,
            ChooseBackend::S3(_) => BackendKind::S3,
        }
    }

    /// Chooses the store that a URL names, on a platform that does or does
    /// not recognise drives.
    pub fn from_url_on(url: &str, drives: bool) -> (r: Result<ChooseBackend, BackendError>)
        ensures
            is_chosen(parse_url(url@, drives), r),
    {
        proof {
            reveal_strlit("rclone");
            reveal_strlit("rest");
            reveal_strlit("local");
            reveal_strlit("s3");
        }
        match split_once(url, ':') {
            None => {
                proof {
                    lemma_scheme_len(url@, Seq::empty());
                }
                Ok(ChooseBackend::Local(LocalBackend::new(url)))
            },
            Some((scheme, path)) => {
                proof {
                    lemma_scheme_len(scheme@, path@);
                    assert(url@.take(scheme@.len() as int) =~= scheme@);
                    assert(url@.skip(scheme@.len() as int + 1) =~= path@);
                }
                if drives && is_drive_letter(scheme) {
                    Ok(ChooseBackend::Local(LocalBackend::new(url)))
                } else if same_str(scheme, "rclone") {
                    Ok(ChooseBackend::Rclone(RcloneBackend::new(path)))
                } else if same_str(scheme, "rest") {
                    Ok(ChooseBackend::Rest(RestBackend::new(path)))
                } else if same_str(scheme, "local") {
                    Ok(ChooseBackend::Local(LocalBackend::new(path)))
                } else if same_str(scheme, "s3") {
                    Ok(ChooseBackend::S3(S3Backend::new(path)))
                } else {
                    Err(BackendError::UnsupportedBackend(String::from_str(scheme)))
                }
            },
        }
    }

    /// Chooses the store that a URL names. Drives are recognised where the
    /// backslash separates the parts of a path.
    pub fn from_url(url: &str) -> (r: Result<ChooseBackend, BackendError>)
        ensures
            is_chosen(parse_url(url@, true), r) || is_chosen(parse_url(url@, false), r),
    {
        let drives: bool = std::path::is_separator('\\');
        Self::from_url_on(url, drives)
    }

    /// Where the repository is, for a reader: the scheme of the kind, a
    /// colon, and the path; for an S3 store see `S3Backend::location`.
    pub open spec fn spec_location(&self) -> Seq<char> {
        match self {
            ChooseBackend::Local(local) => "local:"@ + local.path@,
            ChooseBackend::Rest(rest) => "rest:"@ + rest.url@,
            ChooseBackend::Rclone(rclone) => "rclone:"@ + rclone.url@,
            ChooseBackend::S3(s3) => s3.spec_location(),
        }
    }

    /// Where the repository is, for a reader.
    pub fn location(&self) -> (location: String)
        ensures
            location@ == self.spec_location(),
    {
        match self {
            ChooseBackend::Local(local) => String::from_str("local:").concat(
                local.path.as_str(),
            ),
            ChooseBackend::Rest(rest) => String::from_str("rest:").concat(rest.url.as_str()),
            ChooseBackend::Rclone(rclone) => String::from_str("rclone:").concat(
                rclone.url.as_str(),
            ),
            ChooseBackend::S3(s3) => s3.location(),
        }
    }

    /// Sets an option of the store from its name and its value as strings.
    /// Nothing but the options changes.
    pub fn set_option(&mut self, option: &str, value: &str) -> (r: Result<(), OptionError>)
        ensures
            final(self)@.kind == old(self)@.kind,
            final(self)@.path == old(self)@.path,
            final(self).spec_location() == old(self).spec_location(),
            *old(self) matches ChooseBackend::S3(before) ==> {
                &&& *final(self) matches ChooseBackend::S3(after)
                &&& after.region == before.region
                &&& after.endpoint_url == before.endpoint_url
                &&& after.bucket_name == before.bucket_name
                &&& after.prefix == before.prefix
            },
            match with_option(old(self)@.options, option@, value@) {
                Ok(options) => r is Ok && final(self)@.options == options,
                Err(e) => r == Err::<(), OptionError>(e) && final(self)@.options == old(
                    self,
                )@.options,
            },
    {
        match self {
            ChooseBackend::Local(local) => local.options.set_option(option, value),
            ChooseBackend::Rest(rest) => rest.options.set_option(option, value),
            ChooseBackend::Rclone(rclone) => rclone.options.set_option(option, value),
            ChooseBackend::S3(s3) => s3.set_option(option, value),
        }
    }
}

/// Whether a scheme is the letter of a drive.
pub fn is_drive_letter(scheme: &str) -> (r: bool)
    ensures
        r == is_drive(scheme@),
{
    if scheme.unicode_len() != 1 {
        return false;
    }
    let c: char = scheme.get_char(0);
    ('a' <= c && c <= 'z') || ('A' <= c && c <= 'Z')
}

} // verus!
