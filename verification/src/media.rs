//! Files under public addresses, for platforms that fetch what they are sent.

use vstd::prelude::*;
use vstd::string::*;

use crate::handles;
use crate::ids;
use crate::paths;
use crate::text;

verus! {

/// A publisher that refuses everything, so that a missing one is noticed.
pub struct DisabledPublisher;

impl DisabledPublisher {
    /// Always an error.
    pub fn publish(&self, path: &str, mime: &str) -> (r: Result<String, String>)
        ensures
            r matches Err(e) && e@ == "media publisher is not configured"@,
    {
        Err("media publisher is not configured".to_string())
    }
}

// ── The local server ────────────────────────────────────────────────────

/// An address in full and its path, none where the text is no address.
pub uninterp spec fn url_parts(base: Seq<char>) -> Option<(Seq<char>, Seq<char>)>;

/// An address with another path, none where the text is no address.
pub uninterp spec fn url_with_path(base: Seq<char>, path: Seq<char>) -> Option<Seq<char>>;

pub open spec fn url_view(r: Option<(String, String)>) -> Option<(Seq<char>, Seq<char>)> {
    match r {
        Some((full, path)) => Some((full@, path@)),
        None => None,
    }
}

/// The most bytes that a character of a path takes in an address: four of UTF-8,
/// each of them escaped.
pub const ESCAPED: u32 = 12;

/// The parts of an address are counted in 32 bits: there is room for a path in
/// place of the one of an address if they cannot be longer than that together.
pub open spec fn has_room(full: Seq<char>, path: Seq<char>) -> bool {
    full.len() + (path.len() + 1) * ESCAPED <= u32::MAX
}

/// `url::Url::parse`: the address as `as_str` writes it, and its `path`.
#[verifier::external_body]
fn parse_url(base: &str) -> (r: Option<(String, String)>)
    ensures
        url_view(r) == url_parts(base@),
{
    url::Url::parse(base).ok().map(|u| (u.as_str().to_string(), u.path().to_string()))
}

/// `url::Url::parse`, and `set_path` on what it gives, which needs the room.
#[verifier::external_body]
fn replace_path(base: &str, path: &str) -> (r: Option<String>)
    requires
        url_parts(base@) matches Some(parts) ==> has_room(parts.0, path@),
    ensures
        text::opt_text(r) == url_with_path(base@, path@),
{
    let mut url = url::Url::parse(base).ok()?;
    url.set_path(path);
    Some(url.to_string())
}

/// Whether files can be published below a base: it is an address.
pub fn is_base_url(base: &str) -> (r: bool)
    ensures
        r == (url_parts(base@) is Some),
{
    parse_url(base).is_some()
}

/// The path of a published file, below the path of the base address.
pub open spec fn media_path(base_path: Seq<char>, id: Seq<char>) -> Seq<char> {
    text::strip_back(base_path, seq!['/']) + "/media/"@ + id
}

/// The path of a published file, below the path of the base address.
pub fn file_path(base_path: &str, id: &str) -> (r: String)
    ensures
        r@ == media_path(base_path@, id@),
{
    let slash: Vec<char> = vec!['/'];
    assert(slash@ =~= seq!['/']);
    let below: String = text::stripped_back(base_path, slash.as_slice());
    text::concat3(below.as_str(), "/media/", id)
}

/// The address of a published file; none where the base is no address, or has no
/// room for the path.
pub open spec fn media_url(base: Seq<char>, id: Seq<char>) -> Option<Seq<char>> {
    match url_parts(base) {
        None => None,
        Some((full, p)) => if has_room(full, media_path(p, id)) {
            url_with_path(base, media_path(p, id))
        } else {
            None
        },
    }
}

/// Whether an address has room for a path in place of its own.
pub fn room(full: &str, path: &str) -> (r: bool)
    ensures
        r == has_room(full@, path@),
{
    let most: usize = u32::MAX as usize;
    let taken: usize = full.unicode_len();
    let wanted: usize = path.unicode_len();
    let escaped: usize = ESCAPED as usize;
    if taken > most || wanted >= most {
        return false;
    }
    wanted + 1 <= (most - taken) / escaped
}

/// The address of a published file.
pub fn public_url(base: &str, id: &str) -> (r: Option<String>)
    ensures
        text::opt_text(r) == media_url(base@, id@),
{
    match parse_url(base) {
        None => None,
        Some((full, p)) => {
            let path: String = file_path(p.as_str(), id);
            if room(full.as_str(), path.as_str()) {
                replace_path(base, path.as_str())
            } else {
                None
            }
        },
    }
}

/// A published file. It is not copied: it has to stay where it is.
#[derive(Debug, PartialEq, Eq)]
pub struct Entry {
    pub path: String,
    pub mime: String,
}

impl Clone for Entry {
    fn clone(&self) -> (r: Entry)
        ensures
            r == *self,
    {
        Entry { path: self.path.clone(), mime: self.mime.clone() }
    }
}

/// Serves files under identifiers that cannot be guessed.
pub struct LocalHttpPublisher {
    files: dashmap::DashMap<String, u64>,
    entries: Vec<Entry>,
    base: String,
}

impl LocalHttpPublisher {
    /// Every identifier leads to an entry.
    pub closed spec fn wf(&self) -> bool {
        forall|k: Seq<char>| #[trigger]
            handles::live(self.files).contains_key(k) ==> handles::live(self.files)[k]
                < self.entries@.len()
    }

    /// The published files, by identifier.
    pub closed spec fn published(&self) -> Map<Seq<char>, (Seq<char>, Seq<char>)> {
        Map::new(
            |k: Seq<char>| handles::live(self.files).contains_key(k),
            |k: Seq<char>|
                {
                    let e = self.entries@[handles::live(self.files)[k] as int];
                    (e.path@, e.mime@)
                },
        )
    }

    /// The base address.
    pub closed spec fn base(&self) -> Seq<char> {
        self.base@
    }

    /// A publisher that serves nothing yet.
    pub fn new(base: &str) -> (r: LocalHttpPublisher)
        ensures
            r.wf(),
            r.base() == base@,
            r.published() == Map::<Seq<char>, (Seq<char>, Seq<char>)>::empty(),
    {
        let r = LocalHttpPublisher {
            files: handles::handles_new(),
            entries: Vec::new(),
            base: base.to_string(),
        };
        assert(r.published() =~= Map::<Seq<char>, (Seq<char>, Seq<char>)>::empty());
        r
    }

    /// Publishes a file under an identifier; gives its address.
    pub fn publish_as(&mut self, id: &str, path: &str, mime: &str) -> (r: Option<String>)
        requires
            old(self).wf(),
        ensures
            final(self).wf(),
            final(self).base() == old(self).base(),
            final(self).published() == old(self).published().insert(id@, (path@, mime@)),
            text::opt_text(r) == media_url(old(self).base(), id@),
    {
        let n: u64 = self.entries.len() as u64;
        let ghost before = self.entries@;
        let ghost live = handles::live(self.files);
        self.entries.push(Entry { path: path.to_string(), mime: mime.to_string() });
        handles::handles_insert(&mut self.files, id.to_string(), n);
        proof {
            assert forall|k: Seq<char>| #[trigger]
                handles::live(self.files).contains_key(k) implies handles::live(self.files)[k]
                < self.entries@.len() by {
                if k != id@ {
                    assert(live.contains_key(k));
                }
            }
            let want = old(self).published().insert(id@, (path@, mime@));
            assert forall|k: Seq<char>| #[trigger] want.contains_key(k) implies self.published()[k]
                == want[k] by {
                if k != id@ {
                    assert(live.contains_key(k));
                    assert(self.entries@[live[k] as int] == before[live[k] as int]);
                }
            }
            assert(self.published() =~= want);
        }
        public_url(self.base.as_str(), id)
    }

    /// Publishes a file under a fresh identifier; gives the identifier and the
    /// address.
    pub fn publish(&mut self, path: &str, mime: &str) -> (r: (String, Option<String>))
        requires
            old(self).wf(),
        ensures
            final(self).wf(),
            final(self).base() == old(self).base(),
            ids::is_uuid(r.0@),
            final(self).published() == old(self).published().insert(r.0@, (path@, mime@)),
            text::opt_text(r.1) == media_url(old(self).base(), r.0@),
    {
        let id: String = ids::new_id();
        let url: Option<String> = self.publish_as(id.as_str(), path, mime);
        (id, url)
    }

    /// The file under an identifier; none is a 404.
    pub fn lookup(&self, id: &str) -> (r: Option<Entry>)
        requires
            self.wf(),
        ensures
            match r {
                Some(e) => self.published().contains_pair(id@, (e.path@, e.mime@)),
                None => !self.published().contains_key(id@),
            },
    {
        match handles::handles_get(&self.files, id) {
            Some(n) => {
                assert(handles::live(self.files).contains_key(id@));
                let count: usize = self.entries.len();
                assert(n < count);
                Some(self.entries[n as usize].clone())
            },
            None => None,
        }
    }
}

/// A published file can be fetched under its identifier, and publishing another
/// one does not get in the way.
pub proof fn published_files_can_be_fetched(
    served: Map<Seq<char>, (Seq<char>, Seq<char>)>,
    id: Seq<char>,
    file: (Seq<char>, Seq<char>),
    other: Seq<char>,
    later: (Seq<char>, Seq<char>),
)
    requires
        other != id,
    ensures
        served.insert(id, file).contains_pair(id, file),
        served.insert(id, file).insert(other, later).contains_pair(id, file),
{
}

// ── Blob storage ────────────────────────────────────────────────────────

/// The account and the blob endpoint that a connection string names, or why it
/// is none.
pub uninterp spec fn connection_parts(s: Seq<char>) -> Result<
    (Option<Seq<char>>, Option<Seq<char>>),
    Seq<char>,
>;

/// Whether a connection string holds credentials, or why not.
pub uninterp spec fn connection_credentials(s: Seq<char>) -> Result<(), Seq<char>>;

pub open spec fn parts_view(r: Result<(Option<String>, Option<String>), String>) -> Result<
    (Option<Seq<char>>, Option<Seq<char>>),
    Seq<char>,
> {
    match r {
        Ok((a, b)) => Ok((text::opt_text(a), text::opt_text(b))),
        Err(e) => Err(e@),
    }
}

pub open spec fn unit_view(r: Result<(), String>) -> Result<(), Seq<char>> {
    match r {
        Ok(()) => Ok(()),
        Err(e) => Err(e@),
    }
}

/// `azure_storage::ConnectionString::new`: the account name and the blob
/// endpoint of a connection string, or the error as text.
#[verifier::external_body]
fn parse_connection(s: &str) -> (r: Result<(Option<String>, Option<String>), String>)
    ensures
        parts_view(r) == connection_parts(s@),
{
    match azure_storage::ConnectionString::new(s) {
        Ok(c) => Ok(
            (c.account_name.map(|a| a.to_string()), c.blob_endpoint.map(|b| b.to_string())),
        ),
        Err(e) => Err(e.to_string()),
    }
}

/// `azure_storage::ConnectionString::storage_credentials` of a connection
/// string: whether it succeeds, or the error as text.
#[verifier::external_body]
fn check_credentials(s: &str) -> (r: Result<(), String>)
    ensures
        unit_view(r) == connection_credentials(s@),
{
    match azure_storage::ConnectionString::new(s).and_then(|c| c.storage_credentials()) {
        Ok(_) => Ok(()),
        Err(e) => Err(e.to_string()),
    }
}

/// Where an account keeps its blobs.
#[derive(Debug, PartialEq, Eq)]
pub enum BlobLocation {
    /// At the usual address of the account.
    Public { account: String },
    /// At an address of its own.
    Custom { account: String, uri: String },
}

pub enum LocationView {
    Public { account: Seq<char> },
    Custom { account: Seq<char>, uri: Seq<char> },
}

impl View for BlobLocation {
    type V = LocationView;

    open spec fn view(&self) -> LocationView {
        match self {
            BlobLocation::Public { account } => LocationView::Public { account: account@ },
            BlobLocation::Custom { account, uri } => LocationView::Custom {
                account: account@,
                uri: uri@,
            },
        }
    }
}

/// Where the blobs go: the string must be one, hold credentials and name an
/// account; an endpoint in it wins over the usual address.
pub open spec fn location_of(
    parts: Result<(Option<Seq<char>>, Option<Seq<char>>), Seq<char>>,
    credentials: Result<(), Seq<char>>,
) -> Result<LocationView, Seq<char>> {
    match parts {
        Err(e) => Err("invalid connection string: "@ + e),
        Ok((account, endpoint)) => match credentials {
            Err(e) => Err("invalid storage credentials: "@ + e),
            Ok(()) => match (account, endpoint) {
                (None, _) => Err("connection string missing AccountName"@),
                (Some(account), Some(uri)) => Ok(LocationView::Custom { account, uri }),
                (Some(account), None) => Ok(LocationView::Public { account }),
            },
        },
    }
}

pub open spec fn location_view(r: Result<BlobLocation, String>) -> Result<LocationView, Seq<char>> {
    match r {
        Ok(l) => Ok(l@),
        Err(e) => Err(e@),
    }
}

/// Where the blobs go, by what the connection string names.
pub fn choose_location(
    parts: Result<(Option<String>, Option<String>), String>,
    credentials: Result<(), String>,
) -> (r: Result<BlobLocation, String>)
    ensures
        location_view(r) == location_of(parts_view(parts), unit_view(credentials)),
{
    match parts {
        Err(e) => Err(text::concat2("invalid connection string: ", e.as_str())),
        Ok((account, endpoint)) => match credentials {
            Err(e) => Err(text::concat2("invalid storage credentials: ", e.as_str())),
            Ok(()) => match account {
                None => Err("connection string missing AccountName".to_string()),
                Some(account) => match endpoint {
                    Some(uri) => Ok(BlobLocation::Custom { account, uri }),
                    None => Ok(BlobLocation::Public { account }),
                },
            },
        },
    }
}

/// Where the blobs of a connection string go.
pub fn blob_location(connection: &str) -> (r: Result<BlobLocation, String>)
    ensures
        location_view(r) == location_of(
            connection_parts(connection@),
            connection_credentials(connection@),
        ),
{
    choose_location(parse_connection(connection), check_credentials(connection))
}

/// The name of a blob: its own directory, and the name of the file.
pub fn blob_name(id: &str, path: &str) -> (r: String)
    ensures
        r@ == "media/"@ + id@ + "/"@ + {
            let name = paths::file_name(path@);
            if name.len() == 0 {
                "file"@
            } else {
                name
            }
        },
{
    let head: String = text::concat3("media/", id, "/");
    let name: String = paths::tail_after(path, '/');
    if name.as_str().unicode_len() == 0 {
        text::concat2(head.as_str(), "file")
    } else {
        text::concat2(head.as_str(), name.as_str())
    }
}

// ── Laws ────────────────────────────────────────────────────────────────

/// A file lies under `media` below the path of the base address, with one slash
/// between.
pub proof fn files_lie_under_media(base: Seq<char>, id: Seq<char>)
    requires
        base.len() == 0 || base.last() != '/',
    ensures
        media_path(base, id) == base + "/media/"@ + id,
        media_path(base + "/"@, id) == base + "/media/"@ + id,
{
    reveal_strlit("/");
    let set = seq!['/'];
    assert(set[0] == '/');
    assert((base + "/"@).last() == '/');
    assert(set.contains('/'));
    assert((base + "/"@).drop_last() =~= base);
    if base.len() > 0 {
        assert(!set.contains(base.last()));
    }
}

/// A connection string with an account and credentials says where files are stored;
/// each thing that is missing is named.
pub proof fn connection_says_where_files_are_stored(
    account: Seq<char>,
    uri: Seq<char>,
    e: Seq<char>,
    credentials: Result<(), Seq<char>>,
    endpoint: Option<Seq<char>>,
)
    ensures
        location_of(Ok((Some(account), None)), Ok(())) == Ok::<LocationView, Seq<char>>(
            LocationView::Public { account },
        ),
        location_of(Ok((Some(account), Some(uri))), Ok(())) == Ok::<LocationView, Seq<char>>(
            LocationView::Custom { account, uri },
        ),
        location_of(Ok((None, endpoint)), Ok(())) == Err::<LocationView, Seq<char>>(
            "connection string missing AccountName"@,
        ),
        location_of(Ok((Some(account), endpoint)), Err(e)) == Err::<LocationView, Seq<char>>(
            "invalid storage credentials: "@ + e,
        ),
        location_of(Err(e), credentials) == Err::<LocationView, Seq<char>>(
            "invalid connection string: "@ + e,
        ),
{
}

/// The address of a file is the base address with the path of the file.
pub proof fn addresses_name_their_file(base: Seq<char>, full: Seq<char>, path: Seq<char>, id: Seq<char>)
    requires
        path.len() == 0 || path.last() != '/',
        url_parts(base) == Some((full, path)),
        full.len() + (path.len() + id.len() + 8) * 12 <= u32::MAX,
    ensures
        media_url(base, id) == url_with_path(base, path + "/media/"@ + id),
{
    files_lie_under_media(path, id);
    reveal_strlit("/media/");
    assert(media_path(path, id).len() == path.len() + 7 + id.len());
}

} // verus!
