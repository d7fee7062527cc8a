//! Creating and managing shares. These are the operations of the local
//! dashboard.

use crate::auth::{hash_password, is_hash_of, MAX_PASSWORD_BYTES};
use crate::clock::{now_ts, on_clock};
use crate::db;
use crate::db::{
    change_view, distinct_names, entry_views, lists_all, newest_first, opt_view, share_views, DbError,
    EntryView, Registry, RegistryView, Share, ShareEntry, ShareSummary, ShareView, SummaryView,
};
use crate::error::{AppError, ErrorView};
use crate::ids::{generate_share_id, is_token, SHARE_ID_LEN};
use crate::names::{
    safe_entry, safe_filename, sanitize_filename, sanitize_zip_entry, DEFAULT_ENTRY_NAME,
    DEFAULT_FILENAME,
};
use crate::state::AppState;
use crate::text::{
    chars_of, ends_with, has_suffix, lowercase, parse_signed, same_text, signed_value,
    to_lowercase, trim_text, trimmed,
};
use vstd::prelude::*;
use vstd::utf8::{decode_utf8, encode_utf8, valid_utf8};

verus! {

/// A result with the text of its error as characters.
pub open spec fn outcome<T>(r: Result<T, AppError>) -> Result<T, ErrorView> {
    match r {
        Ok(v) => Ok(v),
        Err(e) => Err(e@),
    }
}

fn bad_request<T>(message: &str) -> (r: Result<T, AppError>)
    ensures
        r matches Err(e) && e@ == ErrorView::BadRequest(message@),
{
    Err(AppError::BadRequest(message.to_string()))
}

// ---------------------------------------------------------------------------
// Settings

/// When a share expires that is made at `now` with this setting: `never` and
/// nothing at all are no expiry, `1h`, `24h`, `7d` and `30d` are what they say,
/// and anything else is a number of seconds.
pub open spec fn expiry(input: Seq<char>, now: i64) -> Result<Option<i64>, ErrorView> {
    if input == "never"@ || input == ""@ {
        Ok(None)
    } else {
        let secs = if input == "1h"@ {
            Some(3600int)
        } else if input == "24h"@ {
            Some(86400int)
        } else if input == "7d"@ {
            Some(604800int)
        } else if input == "30d"@ {
            Some(2592000int)
        } else {
            signed_value(input)
        };
        match secs {
            None => Err(ErrorView::BadRequest("invalid expiry value"@)),
            Some(s) => if s <= 0 {
                Err(ErrorView::BadRequest("expiry must be positive"@))
            } else if now + s > i64::MAX {
                Err(ErrorView::BadRequest("expiry is too large"@))
            } else {
                Ok(Some((now + s) as i64))
            },
        }
    }
}

/// How often a share with this setting may be downloaded: `unlimited` and nothing
/// at all are no limit, anything else is a number.
pub open spec fn download_limit(input: Seq<char>) -> Result<Option<i64>, ErrorView> {
    if input == "unlimited"@ || input == ""@ {
        Ok(None)
    } else {
        match signed_value(input) {
            None => Err(ErrorView::BadRequest("invalid max_downloads value"@)),
            Some(n) => if n <= 0 {
                Err(ErrorView::BadRequest("max_downloads must be positive"@))
            } else {
                Ok(Some(n as i64))
            },
        }
    }
}

/// Reads the expiry setting, at a given time.
pub fn parse_expiry_at(input: &str, now: i64) -> (r: Result<Option<i64>, AppError>)
    ensures
        outcome(r) == expiry(input@, now),
{
    proof {
        reveal_strlit("never");
        reveal_strlit("");
        reveal_strlit("1h");
        reveal_strlit("24h");
        reveal_strlit("7d");
        reveal_strlit("30d");
    }
    if same_text(input, "never") || same_text(input, "") {
        return Ok(None);
    }
    let secs: i64 = if same_text(input, "1h") {
        3600
    } else if same_text(input, "24h") {
        86_400
    } else if same_text(input, "7d") {
        604_800
    } else if same_text(input, "30d") {
        2_592_000
    } else {
        let chars = chars_of(input);
        match parse_signed(chars.as_slice()) {
            Some(s) => s,
            None => {
                return bad_request("invalid expiry value");
            },
        }
    };
    if secs <= 0 {
        return bad_request("expiry must be positive");
    }
    match now.checked_add(secs) {
        Some(at) => Ok(Some(at)),
        None => bad_request("expiry is too large"),
    }
}

/// Reads the expiry setting.
pub fn parse_expiry(input: &str) -> (r: Result<Option<i64>, AppError>)
    ensures
        exists|now: i64| on_clock(now) && outcome(r) == #[trigger] expiry(input@, now),
{
    parse_expiry_at(input, now_ts())
}

/// Reads the setting of the download limit.
pub fn parse_max_downloads(input: &str) -> (r: Result<Option<i64>, AppError>)
    ensures
        outcome(r) == download_limit(input@),
{
    if same_text(input, "unlimited") || same_text(input, "") {
        return Ok(None);
    }
    let chars = chars_of(input);
    match parse_signed(chars.as_slice()) {
        None => bad_request("invalid max_downloads value"),
        Some(n) => if n <= 0 {
            bad_request("max_downloads must be positive")
        } else {
            Ok(Some(n))
        },
    }
}

/// An expiry that is accepted lies in the future, and a limit that is accepted
/// allows a download: a share that was just made can be downloaded.
pub proof fn law_settings_leave_a_download(
    expires: Seq<char>,
    max_downloads: Seq<char>,
    now: i64,
    s: ShareView,
)
    requires
        expiry(expires, now) == Ok::<Option<i64>, ErrorView>(s.expires_at),
        download_limit(max_downloads) == Ok::<Option<i64>, ErrorView>(s.max_downloads),
        s.active(),
        s.download_count == 0,
    ensures
        s.claimable(now),
{
}

// ---------------------------------------------------------------------------
// The form that a share is made with

/// The text that `String::from_utf8_lossy` makes of bytes.
pub uninterp spec fn lossy_text(bytes: Seq<u8>) -> Seq<char>;

/// `String::from_utf8_lossy`: the text that the bytes encode where they are valid
/// UTF-8, and otherwise a text in which what is not valid was replaced. It
/// depends on the bytes alone.
#[verifier::external_body]
fn from_utf8_lossy(bytes: &[u8]) -> (r: String)
    ensures
        r@ == lossy_text(bytes@),
        valid_utf8(bytes@) ==> r@ == decode_utf8(bytes@),
{
    String::from_utf8_lossy(bytes).into_owned()
}

/// The text of a form field, without the white space at its ends.
pub fn field_text(bytes: &[u8]) -> (r: String)
    ensures
        r@ == trimmed(lossy_text(bytes@)),
        valid_utf8(bytes@) ==> r@ == trimmed(decode_utf8(bytes@)),
{
    let text = from_utf8_lossy(bytes);
    trim_text(text.as_str())
}

/// What a field of an upload form is for.
#[derive(Clone, Copy, Debug, PartialEq, Eq, Structural)]
pub enum Field {
    File,
    FolderName,
    Expires,
    MaxDownloads,
    Password,
    /// Read to its end and left alone, so that a form can have fields that this
    /// version does not know.
    Unknown,
}

pub open spec fn field_named(name: Seq<char>) -> Field {
    if name == "file"@ {
        Field::File
    } else if name == "folder_name"@ {
        Field::FolderName
    } else if name == "expires"@ {
        Field::Expires
    } else if name == "max_downloads"@ {
        Field::MaxDownloads
    } else if name == "password"@ {
        Field::Password
    } else {
        Field::Unknown
    }
}

fn field_of(name: &str) -> (r: Field)
    ensures
        r == field_named(name@),
{
    if same_text(name, "file") {
        Field::File
    } else if same_text(name, "folder_name") {
        Field::FolderName
    } else if same_text(name, "expires") {
        Field::Expires
    } else if same_text(name, "max_downloads") {
        Field::MaxDownloads
    } else if same_text(name, "password") {
        Field::Password
    } else {
        Field::Unknown
    }
}

/// The settings of a share, as they stand in the form.
pub struct ShareForm {
    pub expires: String,
    pub max_downloads: String,
    pub password: Option<String>,
}

#[verifier::ext_equal]
pub struct FormView {
    pub expires: Seq<char>,
    pub max_downloads: Seq<char>,
    pub password: Option<Seq<char>>,
}

impl View for ShareForm {
    type V = FormView;

    open spec fn view(&self) -> FormView {
        FormView {
            expires: self.expires@,
            max_downloads: self.max_downloads@,
            password: opt_view(self.password),
        }
    }
}

impl FormView {
    /// A form in which nothing is filled in.
    pub open spec fn blank() -> FormView {
        FormView { expires: "never"@, max_downloads: "unlimited"@, password: None }
    }

    /// With a field filled in. An empty password is none.
    pub open spec fn with(self, field: Field, text: Seq<char>) -> FormView {
        match field {
            Field::Expires => FormView { expires: text, ..self },
            Field::MaxDownloads => FormView { max_downloads: text, ..self },
            Field::Password => if text.len() > 0 {
                FormView { password: Some(text), ..self }
            } else {
                self
            },
            _ => self,
        }
    }

    /// The expiry and the limit that the form asks for, at `now`.
    pub open spec fn settings(self, now: i64) -> Result<(Option<i64>, Option<i64>), ErrorView> {
        match expiry(self.expires, now) {
            Err(e) => Err(e),
            Ok(expires_at) => match download_limit(self.max_downloads) {
                Err(e) => Err(e),
                Ok(max) => Ok((expires_at, max)),
            },
        }
    }
}

impl ShareForm {
    pub fn new() -> (r: ShareForm)
        ensures
            r@ == FormView::blank(),
    {
        ShareForm {
            expires: "never".to_string(),
            max_downloads: "unlimited".to_string(),
            password: None,
        }
    }

    /// Fills a field in.
    pub fn set(&mut self, field: Field, text: String)
        ensures
            final(self)@ == old(self)@.with(field, text@),
    {
        match field {
            Field::Expires => {
                self.expires = text;
            },
            Field::MaxDownloads => {
                self.max_downloads = text;
            },
            Field::Password => {
                if !text.as_str().is_empty() {
                    self.password = Some(text);
                }
            },
            _ => {},
        }
    }

    /// Reads the expiry and the limit, at a given time.
    pub fn settings_at(&self, now: i64) -> (r: Result<(Option<i64>, Option<i64>), AppError>)
        ensures
            outcome(r) == self@.settings(now),
    {
        match parse_expiry_at(self.expires.as_str(), now) {
            Err(e) => Err(e),
            Ok(expires_at) => match parse_max_downloads(self.max_downloads.as_str()) {
                Err(e) => Err(e),
                Ok(max) => Ok((expires_at, max)),
            },
        }
    }
}

/// What may be kept of a password: a text that it is accepted for, or nothing
/// where there is none.
pub open spec fn hash_fits(password: Option<Seq<char>>, hash: Option<Seq<char>>) -> bool {
    match password {
        None => hash is None,
        Some(p) => hash matches Some(h) && is_hash_of(p, h),
    }
}

/// A password that cannot be hashed.
pub open spec fn too_long(password: Option<Seq<char>>) -> bool {
    password matches Some(p) && encode_utf8(p).len() > MAX_PASSWORD_BYTES
}

fn hash_if_any(password: &Option<String>) -> (r: Result<Option<String>, AppError>)
    ensures
        match r {
            Ok(h) => !too_long(opt_view(*password)) && hash_fits(opt_view(*password), opt_view(h)),
            Err(e) => too_long(opt_view(*password)) && e@ == ErrorView::Internal(
                "password hashing failed"@,
            ),
        },
{
    match password {
        None => Ok(None),
        Some(p) => match hash_password(p.as_str()) {
            Ok(h) => Ok(Some(h)),
            Err(e) => Err(e),
        },
    }
}

// ---------------------------------------------------------------------------
// Upload of one file

/// How far the upload of one file has come.
pub struct Upload {
    /// The id of the share that is being made. The file is stored under it and
    /// under nothing that the client chose.
    pub share_id: String,
    pub original_name: Option<String>,
    pub size_bytes: i64,
    /// The file has been received to its end.
    pub received: bool,
    pub form: ShareForm,
}

#[verifier::ext_equal]
pub struct UploadView {
    pub share_id: Seq<char>,
    pub original_name: Option<Seq<char>>,
    pub size_bytes: i64,
    pub received: bool,
    pub form: FormView,
}

impl View for Upload {
    type V = UploadView;

    open spec fn view(&self) -> UploadView {
        UploadView {
            share_id: self.share_id@,
            original_name: opt_view(self.original_name),
            size_bytes: self.size_bytes,
            received: self.received,
            form: self.form@,
        }
    }
}

/// The characters of a text that a client may have left out.
pub open spec fn str_view(s: Option<&str>) -> Option<Seq<char>> {
    match s {
        Some(t) => Some(t@),
        None => None,
    }
}

/// The name that a file is shown under.
pub open spec fn shown_name(file_name: Option<Seq<char>>) -> Seq<char> {
    match file_name {
        Some(n) => safe_filename(n),
        None => DEFAULT_FILENAME@,
    }
}

/// What `size` more bytes make of a size, where the limits allow it.
pub open spec fn grown(size: i64, more: usize, max: u64) -> Option<i64> {
    if size + more <= i64::MAX && size + more <= max {
        Some((size + more) as i64)
    } else {
        None
    }
}

/// Adds the length of a chunk to a size, where the limits allow it.
fn grow(size: i64, more: usize, max: u64) -> (r: Option<i64>)
    requires
        size >= 0,
    ensures
        r == grown(size, more, max),
{
    let sum: u128 = (size as u128) + (more as u128);
    if sum <= (i64::MAX as u128) && sum <= (max as u128) {
        Some(sum as i64)
    } else {
        None
    }
}

impl UploadView {
    pub open spec fn new(share_id: Seq<char>) -> UploadView {
        UploadView {
            share_id: share_id,
            original_name: None,
            size_bytes: 0,
            received: false,
            form: FormView::blank(),
        }
    }

    /// The share that the upload comes to.
    pub open spec fn share(
        self,
        file_path: Seq<char>,
        settings: (Option<i64>, Option<i64>),
        hash: Option<Seq<char>>,
        now: i64,
    ) -> ShareView {
        ShareView {
            id: self.share_id,
            display_name: match self.original_name {
                Some(n) => n,
                None => DEFAULT_FILENAME@,
            },
            file_path: file_path,
            size_bytes: self.size_bytes,
            is_folder: false,
            created_at: now,
            expires_at: settings.0,
            max_downloads: settings.1,
            download_count: 0,
            password_hash: hash,
            status: "active"@,
        }
    }

    /// After a field with this name has begun, and what the field is for; a second
    /// file is refused.
    pub open spec fn started(self, name: Seq<char>, file_name: Option<Seq<char>>) -> Result<
        (Field, UploadView),
        ErrorView,
    > {
        match field_named(name) {
            Field::File => if self.received {
                Err(ErrorView::BadRequest("only one file may be uploaded per share"@))
            } else {
                Ok(
                    (
                        Field::File,
                        UploadView { original_name: Some(shown_name(file_name)), ..self },
                    ),
                )
            },
            Field::FolderName => Ok((Field::Unknown, self)),
            other => Ok((other, self)),
        }
    }

    /// After a chunk of the file has arrived, where the limits allow it.
    pub open spec fn with_chunk(self, len: usize, max: u64) -> Option<UploadView> {
        match grown(self.size_bytes, len, max) {
            Some(size) => Some(UploadView { size_bytes: size, ..self }),
            None => None,
        }
    }

    /// After the file was received to its end.
    pub open spec fn ended(self) -> UploadView {
        UploadView { received: true, ..self }
    }

    /// The settings that the share gets at `now`, once a file is there.
    pub open spec fn settings(self, now: i64) -> Result<(Option<i64>, Option<i64>), ErrorView> {
        if self.received {
            self.form.settings(now)
        } else {
            Err(ErrorView::BadRequest("no file provided"@))
        }
    }
}

impl Upload {
    /// An upload that has not begun, for a share with this id.
    pub fn new(share_id: String) -> (r: Upload)
        ensures
            r@ == UploadView::new(share_id@),
    {
        Upload {
            share_id,
            original_name: None,
            size_bytes: 0,
            received: false,
            form: ShareForm::new(),
        }
    }

    /// An upload that has not begun, for a share with a fresh id.
    pub fn begin() -> (r: Upload)
        ensures
            is_token(r@.share_id, SHARE_ID_LEN as int),
            r@ == UploadView::new(r@.share_id),
    {
        Upload::new(generate_share_id())
    }

    /// A field of the form begins. Says what it is for; a second file is refused.
    pub fn start_field(&mut self, name: &str, file_name: Option<&str>) -> (r: Result<
        Field,
        AppError,
    >)
        ensures
            match r {
                Ok(field) => field == (if field_named(name@) == Field::FolderName {
                    Field::Unknown
                } else {
                    field_named(name@)
                }) && !(field == Field::File && old(self)@.received) && final(self)@ == (if field
                    == Field::File {
                    UploadView {
                        original_name: Some(shown_name(str_view(file_name))),
                        ..old(self)@
                    }
                } else {
                    old(self)@
                }),
                Err(e) => field_named(name@) == Field::File && old(self)@.received && final(self)@
                    == old(self)@ && e@ == ErrorView::BadRequest(
                    "only one file may be uploaded per share"@,
                ),
            },
            match r {
                Ok(field) => old(self)@.started(name@, str_view(file_name)) == Ok::<
                    (Field, UploadView),
                    ErrorView,
                >((field, final(self)@)),
                Err(e) => old(self)@.started(name@, str_view(file_name)) == Err::<
                    (Field, UploadView),
                    ErrorView,
                >(e@) && final(self)@ == old(self)@,
            },
    {
        let field = match field_of(name) {
            Field::FolderName => Field::Unknown,
            other => other,
        };
        if field == Field::File {
            if self.received {
                return bad_request("only one file may be uploaded per share");
            }
            let shown = match file_name {
                Some(n) => sanitize_filename(n),
                None => DEFAULT_FILENAME.to_string(),
            };
            self.original_name = Some(shown);
        }
        Ok(field)
    }

    /// A chunk of the file arrives. It is to be stored where the answer is `Ok`.
    pub fn take_chunk(&mut self, len: usize, max_upload_bytes: u64) -> (r: Result<(), AppError>)
        requires
            old(self)@.size_bytes >= 0,
        ensures
            match r {
                Ok(_) => grown(old(self)@.size_bytes, len, max_upload_bytes) == Some(
                    final(self)@.size_bytes,
                ) && final(self)@ == (UploadView {
                    size_bytes: final(self)@.size_bytes,
                    ..old(self)@
                }),
                Err(e) => grown(old(self)@.size_bytes, len, max_upload_bytes) is None
                    && final(self)@ == old(self)@ && e@ == ErrorView::BadRequest(
                    "file exceeds maximum allowed size"@,
                ),
            },
            match r {
                Ok(_) => old(self)@.with_chunk(len, max_upload_bytes) == Some(final(self)@),
                Err(_) => old(self)@.with_chunk(len, max_upload_bytes) is None,
            },
    {
        match grow(self.size_bytes, len, max_upload_bytes) {
            Some(size) => {
                self.size_bytes = size;
                Ok(())
            },
            None => bad_request("file exceeds maximum allowed size"),
        }
    }

    /// The file has been received to its end.
    pub fn end_file(&mut self)
        ensures
            final(self)@ == (UploadView { received: true, ..old(self)@ }),
            final(self)@ == old(self)@.ended(),
    {
        self.received = true;
    }

    /// Any other field has been received, given by its bytes.
    pub fn take_text(&mut self, field: Field, bytes: &[u8])
        ensures
            final(self)@ == (UploadView {
                form: old(self)@.form.with(field, trimmed(lossy_text(bytes@))),
                ..old(self)@
            }),
    {
        let text = field_text(bytes);
        self.form.set(field, text);
    }

    /// The settings that the share gets at `now`, once a file is there.
    pub fn settings_at(&self, now: i64) -> (r: Result<(Option<i64>, Option<i64>), AppError>)
        ensures
            outcome(r) == self@.settings(now),
    {
        if self.received {
            self.form.settings_at(now)
        } else {
            bad_request("no file provided")
        }
    }
}

/// What the dashboard is told of a share that was made.
pub struct CreatedShare {
    pub id: String,
    pub download_url: String,
    pub public_download_url: String,
}

#[verifier::ext_equal]
pub struct CreatedView {
    pub id: Seq<char>,
    pub download_url: Seq<char>,
    pub public_download_url: Seq<char>,
}

impl View for CreatedShare {
    type V = CreatedView;

    open spec fn view(&self) -> CreatedView {
        CreatedView {
            id: self.id@,
            download_url: self.download_url@,
            public_download_url: self.public_download_url@,
        }
    }
}

pub open spec fn created_view(id: Seq<char>, base_url: Seq<char>) -> CreatedView {
    CreatedView {
        id: id,
        download_url: "/download/"@ + id,
        public_download_url: base_url + "/s/"@ + id,
    }
}

fn created_reply(id: &str, base_url: &str) -> (r: CreatedShare)
    ensures
        r@ == created_view(id@, base_url@),
{
    let mut download_url = "/download/".to_string();
    download_url.append(id);
    let mut public_download_url = base_url.to_string();
    public_download_url.append("/s/");
    public_download_url.append(id);
    CreatedShare { id: id.to_string(), download_url, public_download_url }
}

/// What making a share of an upload comes to, at `now`, with this password hash.
pub open spec fn creation(
    before: RegistryView,
    after: RegistryView,
    upload: UploadView,
    file_path: Seq<char>,
    base_url: Seq<char>,
    hash: Option<Seq<char>>,
    now: i64,
    reply: Result<CreatedView, ErrorView>,
) -> bool {
    match reply {
        Ok(created) => {
            &&& upload.settings(now) matches Ok(settings)
            &&& hash_fits(upload.form.password, hash)
            &&& !too_long(upload.form.password)
            &&& !before.shares.contains_key(upload.share_id)
            &&& after == before.put(upload.share(file_path, settings, hash, now))
            &&& created == created_view(upload.share_id, base_url)
        },
        Err(e) => {
            &&& after == before
            &&& match upload.settings(now) {
                Err(refused) => e == refused,
                Ok(_) => if too_long(upload.form.password) {
                    e == ErrorView::Internal("password hashing failed"@)
                } else {
                    before.shares.contains_key(upload.share_id) && e == ErrorView::Internal(
                        "share id is taken"@,
                    )
                },
            }
        },
    }
}

/// The characters of the answer to the dashboard.
pub open spec fn created_outcome(r: Result<CreatedShare, AppError>) -> Result<
    CreatedView,
    ErrorView,
> {
    match r {
        Ok(c) => Ok(c@),
        Err(e) => Err(e@),
    }
}

/// Puts the share of an upload into the registry, with the settings and the
/// password hash that were found for it.
pub fn register_share(
    state: &AppState,
    registry: &mut Registry,
    upload: &Upload,
    file_path: &str,
    settings: (Option<i64>, Option<i64>),
    hash: Option<String>,
    now: i64,
) -> (r: Result<CreatedShare, AppError>)
    requires
        old(registry).wf(),
    ensures
        final(registry).wf(),
        match r {
            Ok(created) => {
                &&& !old(registry)@.shares.contains_key(upload@.share_id)
                &&& final(registry)@ == old(registry)@.put(
                    upload@.share(file_path@, settings, opt_view(hash), now),
                )
                &&& created@ == created_view(upload@.share_id, state.public_base_url@)
            },
            Err(e) => {
                &&& old(registry)@.shares.contains_key(upload@.share_id)
                &&& final(registry)@ == old(registry)@
                &&& e@ == ErrorView::Internal("share id is taken"@)
            },
        },
{
    let share = Share {
        id: upload.share_id.clone(),
        display_name: match &upload.original_name {
            Some(n) => n.clone(),
            None => DEFAULT_FILENAME.to_string(),
        },
        file_path: file_path.to_string(),
        size_bytes: upload.size_bytes,
        is_folder: false,
        created_at: now,
        expires_at: settings.0,
        max_downloads: settings.1,
        download_count: 0,
        password_hash: hash,
        status: "active".to_string(),
    };
    assert(share@ =~= upload@.share(file_path@, settings, opt_view(hash), now));
    match db::insert_share(registry, &share) {
        Ok(_) => Ok(created_reply(share.id.as_str(), state.public_base_url.as_str())),
        Err(_) => Err(AppError::Internal("share id is taken".to_string())),
    }
}

/// Makes a share of an upload that has come to its end, at a given time. The file
/// lies under `file_path`, and is to be removed where the answer is not `Ok`.
pub fn create_share_at(
    state: &AppState,
    registry: &mut Registry,
    upload: &Upload,
    file_path: &str,
    now: i64,
) -> (r: Result<CreatedShare, AppError>)
    requires
        old(registry).wf(),
    ensures
        final(registry).wf(),
        exists|hash: Option<Seq<char>>| #[trigger]
            creation(
                old(registry)@,
                final(registry)@,
                upload@,
                file_path@,
                state.public_base_url@,
                hash,
                now,
                created_outcome(r),
            ),
{
    let ghost mut hash: Option<Seq<char>> = None;
    let r = match upload.settings_at(now) {
        Err(e) => Err(e),
        Ok(settings) => match hash_if_any(&upload.form.password) {
            Err(e) => Err(e),
            Ok(password_hash) => {
                proof {
                    hash = opt_view(password_hash);
                }
                register_share(state, registry, upload, file_path, settings, password_hash, now)
            },
        },
    };
    assert(creation(
        old(registry)@,
        registry@,
        upload@,
        file_path@,
        state.public_base_url@,
        hash,
        now,
        created_outcome(r),
    ));
    r
}

/// Makes a share of an upload that has come to its end. The file lies under
/// `file_path`, and is to be removed where the answer is not `Ok`.
pub fn create_share(
    state: &AppState,
    registry: &mut Registry,
    upload: &Upload,
    file_path: &str,
) -> (r: Result<CreatedShare, AppError>)
    requires
        old(registry).wf(),
    ensures
        final(registry).wf(),
        exists|hash: Option<Seq<char>>, now: i64|
            on_clock(now) && #[trigger] creation(
                old(registry)@,
                final(registry)@,
                upload@,
                file_path@,
                state.public_base_url@,
                hash,
                now,
                created_outcome(r),
            ),
{
    create_share_at(state, registry, upload, file_path, now_ts())
}

// ---------------------------------------------------------------------------
// Upload of a folder

/// How far the upload of a folder has come.
pub struct FolderUpload {
    /// The id of the share that is being made. The files are stored in a folder
    /// of that name, each under a name of its own that the client did not choose.
    pub share_id: String,
    pub folder_name: String,
    /// The files that have been received to their ends.
    pub entries: Vec<ShareEntry>,
    pub total_size: i64,
    /// The file that is being received.
    pub current: Option<ShareEntry>,
    pub form: ShareForm,
}

#[verifier::ext_equal]
pub struct FolderView {
    pub share_id: Seq<char>,
    pub folder_name: Seq<char>,
    pub entries: Seq<EntryView>,
    pub total_size: i64,
    pub current: Option<EntryView>,
    pub form: FormView,
}

/// An entry that may be missing, by what it stands for.
pub open spec fn opt_entry(e: Option<ShareEntry>) -> Option<EntryView> {
    match e {
        Some(e) => Some(e@),
        None => None,
    }
}

impl View for FolderUpload {
    type V = FolderView;

    open spec fn view(&self) -> FolderView {
        FolderView {
            share_id: self.share_id@,
            folder_name: self.folder_name@,
            entries: entry_views(self.entries@),
            total_size: self.total_size,
            current: opt_entry(self.current),
            form: self.form@,
        }
    }
}

/// The sizes of the entries, added up.
pub open spec fn sizes_sum(entries: Seq<EntryView>) -> int
    decreases entries.len(),
{
    if entries.len() == 0 {
        0
    } else {
        sizes_sum(entries.drop_last()) + entries.last().size_bytes
    }
}

/// The name that a file has in the archive.
pub open spec fn entry_name(file_name: Option<Seq<char>>) -> Seq<char> {
    match file_name {
        Some(n) => safe_entry(n),
        None => DEFAULT_ENTRY_NAME@,
    }
}

/// The name of the archive of a folder.
pub open spec fn archive_name(folder_name: Seq<char>) -> Seq<char> {
    if has_suffix(lowercase(folder_name), ".zip"@) {
        folder_name
    } else {
        folder_name + ".zip"@
    }
}

impl FolderView {
    pub open spec fn new(share_id: Seq<char>) -> FolderView {
        FolderView {
            share_id: share_id,
            folder_name: "shared-folder"@,
            entries: Seq::empty(),
            total_size: 0,
            current: None,
            form: FormView::blank(),
        }
    }

    /// The size of what has been received is the sizes of the files added up.
    pub open spec fn sound(self) -> bool {
        &&& forall|i: int| 0 <= i < self.entries.len() ==> (#[trigger] self.entries[i]).size_bytes >= 0
        &&& self.current matches Some(e) ==> e.size_bytes >= 0
        &&& sizes_sum(self.entries) >= 0
        &&& self.total_size == sizes_sum(self.entries) + match self.current {
            Some(e) => e.size_bytes as int,
            None => 0,
        }
    }

    /// The share that the upload comes to.
    pub open spec fn share(
        self,
        folder_path: Seq<char>,
        settings: (Option<i64>, Option<i64>),
        hash: Option<Seq<char>>,
        now: i64,
    ) -> ShareView {
        ShareView {
            id: self.share_id,
            display_name: archive_name(self.folder_name),
            file_path: folder_path,
            size_bytes: self.total_size,
            is_folder: true,
            created_at: now,
            expires_at: settings.0,
            max_downloads: settings.1,
            download_count: 0,
            password_hash: hash,
            status: "active"@,
        }
    }

    /// The settings that the share gets at `now`, once a file is there.
    pub open spec fn settings(self, now: i64) -> Result<(Option<i64>, Option<i64>), ErrorView> {
        if self.entries.len() == 0 {
            Err(ErrorView::BadRequest("no files provided"@))
        } else {
            self.form.settings(now)
        }
    }

    /// After a chunk of the file that is being received has arrived, where the limits
    /// allow it.
    pub open spec fn with_chunk(self, len: usize, max: u64) -> Option<FolderView> {
        match grown(self.total_size, len, max) {
            Some(size) => Some(
                FolderView {
                    total_size: size,
                    current: Some(
                        EntryView {
                            size_bytes: (self.current->0.size_bytes + len) as i64,
                            ..self.current->0
                        },
                    ),
                    ..self
                },
            ),
            None => None,
        }
    }

    /// After the file was received to its end.
    pub open spec fn ended(self) -> FolderView {
        FolderView { entries: self.entries.push(self.current->0), current: None, ..self }
    }

    /// With a field filled in.
    pub open spec fn with(self, field: Field, text: Seq<char>) -> FolderView {
        if field == Field::FolderName {
            FolderView { folder_name: safe_filename(text), ..self }
        } else {
            FolderView { form: self.form.with(field, text), ..self }
        }
    }

    /// After a field with this name has begun; a file is stored under
    /// `stored_name`.
    pub open spec fn started(
        self,
        name: Seq<char>,
        file_name: Option<Seq<char>>,
        stored_name: Seq<char>,
    ) -> FolderView {
        if field_named(name) == Field::File {
            FolderView {
                current: Some(
                    EntryView {
                        stored_name: stored_name,
                        display_name: entry_name(file_name),
                        size_bytes: 0,
                    },
                ),
                ..self
            }
        } else {
            self
        }
    }
}

impl FolderUpload {
    /// An upload that has not begun, for a share with this id.
    pub fn new(share_id: String) -> (r: FolderUpload)
        ensures
            r@ == FolderView::new(share_id@),
            r@.sound(),
    {
        let r = FolderUpload {
            share_id,
            folder_name: "shared-folder".to_string(),
            entries: Vec::new(),
            total_size: 0,
            current: None,
            form: ShareForm::new(),
        };
        assert(r@ =~= FolderView::new(share_id@));
        r
    }

    /// An upload that has not begun, for a share with a fresh id.
    pub fn begin() -> (r: FolderUpload)
        ensures
            is_token(r@.share_id, SHARE_ID_LEN as int),
            r@ == FolderView::new(r@.share_id),
            r@.sound(),
    {
        FolderUpload::new(generate_share_id())
    }

    /// A field of the form begins. Says what it is for; a file is to be stored
    /// under the name that is given.
    pub fn start_field_as(&mut self, name: &str, file_name: Option<&str>, stored_name: String) -> (r:
        Field)
        requires
            old(self)@.sound(),
            old(self)@.current is None,
        ensures
            r == field_named(name@),
            final(self)@ == old(self)@.started(name@, str_view(file_name), stored_name@),
            final(self)@.sound(),
    {
        let field = field_of(name);
        if field == Field::File {
            let display_name = match file_name {
                Some(n) => sanitize_zip_entry(n),
                None => DEFAULT_ENTRY_NAME.to_string(),
            };
            self.current = Some(ShareEntry { stored_name, display_name, size_bytes: 0 });
        }
        field
    }

    /// A field of the form begins. Says what it is for; a file is to be stored
    /// under a fresh name.
    pub fn start_field(&mut self, name: &str, file_name: Option<&str>) -> (r: Field)
        requires
            old(self)@.sound(),
            old(self)@.current is None,
        ensures
            r == field_named(name@),
            exists|stored: Seq<char>|
                is_token(stored, SHARE_ID_LEN as int) && final(self)@
                    == #[trigger] old(self)@.started(name@, str_view(file_name), stored),
            final(self)@.sound(),
    {
        let stored_name = generate_share_id();
        self.start_field_as(name, file_name, stored_name)
    }

    /// A chunk of the file arrives. It is to be stored where the answer is `Ok`.
    pub fn take_chunk(&mut self, len: usize, max_upload_bytes: u64) -> (r: Result<(), AppError>)
        requires
            old(self)@.sound(),
            old(self)@.current is Some,
        ensures
            final(self)@.sound(),
            match r {
                Ok(_) => {
                    &&& grown(old(self)@.total_size, len, max_upload_bytes) == Some(
                        final(self)@.total_size,
                    )
                    &&& final(self)@ == (FolderView {
                        total_size: final(self)@.total_size,
                        current: Some(
                            EntryView {
                                size_bytes: (old(self)@.current->0.size_bytes + len) as i64,
                                ..old(self)@.current->0
                            },
                        ),
                        ..old(self)@
                    })
                },
                Err(e) => {
                    &&& grown(old(self)@.total_size, len, max_upload_bytes) is None
                    &&& final(self)@ == old(self)@
                    &&& e@ == ErrorView::BadRequest("folder exceeds maximum allowed size"@)
                },
            },
            match r {
                Ok(_) => old(self)@.with_chunk(len, max_upload_bytes) == Some(final(self)@),
                Err(_) => old(self)@.with_chunk(len, max_upload_bytes) is None,
            },
    {
        match grow(self.total_size, len, max_upload_bytes) {
            Some(total) => {
                let current = self.current.take();
                match current {
                    Some(mut entry) => {
                        entry.size_bytes = entry.size_bytes + (len as i64);
                        self.total_size = total;
                        self.current = Some(entry);
                    },
                    None => {},
                }
                Ok(())
            },
            None => bad_request("folder exceeds maximum allowed size"),
        }
    }

    /// The file has been received to its end.
    pub fn end_file(&mut self)
        requires
            old(self)@.sound(),
            old(self)@.current is Some,
        ensures
            final(self)@.sound(),
            final(self)@ == (FolderView {
                entries: old(self)@.entries.push(old(self)@.current->0),
                current: None,
                ..old(self)@
            }),
            final(self)@ == old(self)@.ended(),
    {
        let current = self.current.take();
        match current {
            Some(entry) => {
                let ghost before = entry_views(self.entries@);
                let ghost e = entry@;
                self.entries.push(entry);
                assert(entry_views(self.entries@) =~= before.push(e));
                assert(before.push(e).drop_last() =~= before);
            },
            None => {},
        }
    }

    /// Any other field has been received, given by its text.
    pub fn take_field(&mut self, field: Field, text: String)
        requires
            old(self)@.sound(),
        ensures
            final(self)@.sound(),
            final(self)@ == old(self)@.with(field, text@),
    {
        if field == Field::FolderName {
            self.folder_name = sanitize_filename(text.as_str());
        } else {
            self.form.set(field, text);
        }
    }

    /// Any other field has been received, given by its bytes.
    pub fn take_text(&mut self, field: Field, bytes: &[u8])
        requires
            old(self)@.sound(),
        ensures
            final(self)@.sound(),
            final(self)@ == old(self)@.with(field, trimmed(lossy_text(bytes@))),
    {
        let text = field_text(bytes);
        self.take_field(field, text);
    }

    /// The settings that the share gets at `now`, once a file is there.
    pub fn settings_at(&self, now: i64) -> (r: Result<(Option<i64>, Option<i64>), AppError>)
        ensures
            outcome(r) == self@.settings(now),
    {
        if self.entries.len() == 0 {
            return bad_request("no files provided");
        }
        self.form.settings_at(now)
    }
}

fn zip_name(folder_name: &str) -> (r: String)
    ensures
        r@ == archive_name(folder_name@),
{
    let low = to_lowercase(folder_name);
    let low_chars = chars_of(low.as_str());
    let suffix = chars_of(".zip");
    let mut out = folder_name.to_string();
    if !ends_with(low_chars.as_slice(), suffix.as_slice()) {
        out.append(".zip");
    }
    out
}

/// What making a share of a folder comes to, at `now`, with this password hash.
pub open spec fn folder_creation(
    before: RegistryView,
    after: RegistryView,
    upload: FolderView,
    folder_path: Seq<char>,
    base_url: Seq<char>,
    hash: Option<Seq<char>>,
    now: i64,
    reply: Result<CreatedView, ErrorView>,
) -> bool {
    match reply {
        Ok(created) => {
            &&& upload.settings(now) matches Ok(settings)
            &&& hash_fits(upload.form.password, hash)
            &&& !too_long(upload.form.password)
            &&& !before.shares.contains_key(upload.share_id)
            &&& distinct_names(upload.entries)
            &&& after == before.put_folder(
                upload.share(folder_path, settings, hash, now),
                upload.entries,
            )
            &&& created == created_view(upload.share_id, base_url)
        },
        Err(e) => {
            &&& after == before
            &&& match upload.settings(now) {
                Err(refused) => e == refused,
                Ok(_) => if too_long(upload.form.password) {
                    e == ErrorView::Internal("password hashing failed"@)
                } else if before.shares.contains_key(upload.share_id) {
                    e == ErrorView::Internal("share id is taken"@)
                } else {
                    !distinct_names(upload.entries) && e == ErrorView::Internal(
                        "stored name is taken"@,
                    )
                },
            }
        },
    }
}

/// Puts the share of a folder into the registry, with the settings and the
/// password hash that were found for it.
pub fn register_folder_share(
    state: &AppState,
    registry: &mut Registry,
    upload: &FolderUpload,
    folder_path: &str,
    settings: (Option<i64>, Option<i64>),
    hash: Option<String>,
    now: i64,
) -> (r: Result<CreatedShare, AppError>)
    requires
        old(registry).wf(),
    ensures
        final(registry).wf(),
        match r {
            Ok(created) => {
                &&& !old(registry)@.shares.contains_key(upload@.share_id)
                &&& distinct_names(upload@.entries)
                &&& final(registry)@ == old(registry)@.put_folder(
                    upload@.share(folder_path@, settings, opt_view(hash), now),
                    upload@.entries,
                )
                &&& created@ == created_view(upload@.share_id, state.public_base_url@)
            },
            Err(e) => {
                &&& final(registry)@ == old(registry)@
                &&& if old(registry)@.shares.contains_key(upload@.share_id) {
                    e@ == ErrorView::Internal("share id is taken"@)
                } else {
                    !distinct_names(upload@.entries) && e@ == ErrorView::Internal(
                        "stored name is taken"@,
                    )
                }
            },
        },
{
    let share = Share {
        id: upload.share_id.clone(),
        display_name: zip_name(upload.folder_name.as_str()),
        file_path: folder_path.to_string(),
        size_bytes: upload.total_size,
        is_folder: true,
        created_at: now,
        expires_at: settings.0,
        max_downloads: settings.1,
        download_count: 0,
        password_hash: hash,
        status: "active".to_string(),
    };
    assert(share@ =~= upload@.share(folder_path@, settings, opt_view(hash), now));
    match db::insert_folder_share(registry, &share, upload.entries.as_slice()) {
        Ok(_) => Ok(created_reply(share.id.as_str(), state.public_base_url.as_str())),
        Err(DbError::DuplicateEntry) => Err(AppError::Internal("stored name is taken".to_string())),
        Err(_) => Err(AppError::Internal("share id is taken".to_string())),
    }
}

/// Makes a share of a folder whose upload has come to its end, at a given time.
/// The files lie in `folder_path`, which is to be removed where the answer is not
/// `Ok`.
pub fn create_folder_share_at(
    state: &AppState,
    registry: &mut Registry,
    upload: &FolderUpload,
    folder_path: &str,
    now: i64,
) -> (r: Result<CreatedShare, AppError>)
    requires
        old(registry).wf(),
    ensures
        final(registry).wf(),
        exists|hash: Option<Seq<char>>| #[trigger]
            folder_creation(
                old(registry)@,
                final(registry)@,
                upload@,
                folder_path@,
                state.public_base_url@,
                hash,
                now,
                created_outcome(r),
            ),
{
    let ghost mut hash: Option<Seq<char>> = None;
    let r = match upload.settings_at(now) {
        Err(e) => Err(e),
        Ok(settings) => match hash_if_any(&upload.form.password) {
            Err(e) => Err(e),
            Ok(password_hash) => {
                proof {
                    hash = opt_view(password_hash);
                }
                register_folder_share(
                    state,
                    registry,
                    upload,
                    folder_path,
                    settings,
                    password_hash,
                    now,
                )
            },
        },
    };
    assert(folder_creation(
        old(registry)@,
        registry@,
        upload@,
        folder_path@,
        state.public_base_url@,
        hash,
        now,
        created_outcome(r),
    ));
    r
}

/// Makes a share of a folder whose upload has come to its end. The files lie in
/// `folder_path`, which is to be removed where the answer is not `Ok`.
pub fn create_folder_share(
    state: &AppState,
    registry: &mut Registry,
    upload: &FolderUpload,
    folder_path: &str,
) -> (r: Result<CreatedShare, AppError>)
    requires
        old(registry).wf(),
    ensures
        final(registry).wf(),
        exists|hash: Option<Seq<char>>, now: i64|
            on_clock(now) && #[trigger] folder_creation(
                old(registry)@,
                final(registry)@,
                upload@,
                folder_path@,
                state.public_base_url@,
                hash,
                now,
                created_outcome(r),
            ),
{
    create_folder_share_at(state, registry, upload, folder_path, now_ts())
}

// ---------------------------------------------------------------------------
// Managing shares

/// How the server is reached.
pub struct ServerStatus {
    pub public_base_url: String,
    pub tunnel_status: String,
    pub auto_tunnel: bool,
}

/// What the dashboard is told of how the server is reached.
pub fn server_status(state: &AppState) -> (r: ServerStatus)
    ensures
        r.public_base_url@ == state.public_base_url@,
        r.tunnel_status@ == state.tunnel_status@,
        r.auto_tunnel == state.config.auto_tunnel,
{
    ServerStatus {
        public_base_url: state.public_base_url(),
        tunnel_status: state.tunnel_status(),
        auto_tunnel: state.config.auto_tunnel,
    }
}

pub open spec fn summary_views(v: Seq<ShareSummary>) -> Seq<SummaryView> {
    v.map_values(|s: ShareSummary| s@)
}

/// What the dashboard is told of shares.
pub open spec fn summaries(list: Seq<ShareView>) -> Seq<SummaryView> {
    list.map_values(|s: ShareView| s.summary())
}

/// All shares, the newest first, without their paths and their password hashes.
pub fn list_shares(registry: &Registry) -> (r: Vec<ShareSummary>)
    requires
        registry.wf(),
    ensures
        exists|list: Seq<ShareView>|
            lists_all(list, registry@.shares) && newest_first(list) && summary_views(r@)
                == #[trigger] summaries(list),
{
    let shares = db::list_shares(registry);
    let n: usize = shares.len();
    let mut out: Vec<ShareSummary> = Vec::new();
    let ghost list = share_views(shares@);
    let ghost told = summaries(list);
    for i in 0..n
        invariant
            n == shares@.len(),
            list == share_views(shares@),
            told == summaries(list),
            summary_views(out@) == told.take(i as int),
    {
        let ghost before = summary_views(out@);
        let summary = ShareSummary::from(&shares[i]);
        assert(summary@ =~= list[i as int].summary());
        let ghost s = summary@;
        out.push(summary);
        assert(summary_views(out@) =~= before.push(s));
        assert(told.take(i + 1) =~= told.take(i as int).push(s));
    }
    assert(told.take(n as int) =~= told);
    out
}

/// The settings of a share that are to be changed. An empty password takes the
/// password away.
pub struct UpdateShareRequest {
    pub expires: Option<String>,
    pub max_downloads: Option<String>,
    pub password: Option<String>,
}

/// The change of the expiry that a request asks for, at `now`.
pub open spec fn expiry_change(expires: Option<Seq<char>>, now: i64) -> Result<
    Option<Option<i64>>,
    ErrorView,
> {
    match expires {
        None => Ok(None),
        Some(e) => match expiry(e, now) {
            Ok(v) => Ok(Some(v)),
            Err(e) => Err(e),
        },
    }
}

/// The change of the limit that a request asks for.
pub open spec fn limit_change(max_downloads: Option<Seq<char>>) -> Result<
    Option<Option<i64>>,
    ErrorView,
> {
    match max_downloads {
        None => Ok(None),
        Some(m) => match download_limit(m) {
            Ok(v) => Ok(Some(v)),
            Err(e) => Err(e),
        },
    }
}

/// A change of what is kept of the password that does what a request asks for.
pub open spec fn password_change(
    password: Option<Seq<char>>,
    change: Option<Option<Seq<char>>>,
) -> bool {
    match password {
        None => change is None,
        Some(p) => if p.len() == 0 {
            change == Some(None::<Seq<char>>)
        } else {
            change matches Some(Some(h)) && is_hash_of(p, h)
        },
    }
}

/// What a request to change settings comes to, at `now`, with this change of the
/// password hash.
pub open spec fn update(
    before: RegistryView,
    after: RegistryView,
    id: Seq<char>,
    body: UpdateShareRequest,
    change: Option<Option<Seq<char>>>,
    now: i64,
    reply: Result<(), ErrorView>,
) -> bool {
    let expires = expiry_change(opt_view(body.expires), now);
    let limit = limit_change(opt_view(body.max_downloads));
    let password = opt_view(body.password);
    match reply {
        Ok(_) => {
            &&& before.shares.contains_key(id)
            &&& expires matches Ok(e)
            &&& limit matches Ok(m)
            &&& !too_long(password)
            &&& password_change(password, change)
            &&& after == before.after_update(id, e, m, change)
        },
        Err(err) => {
            &&& after == before
            &&& if !before.shares.contains_key(id) {
                err == ErrorView::NotFound
            } else if expires is Err {
                err == expires->Err_0
            } else if limit is Err {
                err == limit->Err_0
            } else {
                too_long(password) && err == ErrorView::Internal("password hashing failed"@)
            }
        },
    }
}

fn expiry_to_change(expires: &Option<String>, now: i64) -> (r: Result<Option<Option<i64>>, AppError>)
    ensures
        outcome(r) == expiry_change(opt_view(*expires), now),
{
    match expires {
        None => Ok(None),
        Some(e) => match parse_expiry_at(e.as_str(), now) {
            Ok(v) => Ok(Some(v)),
            Err(e) => Err(e),
        },
    }
}

fn limit_to_change(max_downloads: &Option<String>) -> (r: Result<Option<Option<i64>>, AppError>)
    ensures
        outcome(r) == limit_change(opt_view(*max_downloads)),
{
    match max_downloads {
        None => Ok(None),
        Some(m) => match parse_max_downloads(m.as_str()) {
            Ok(v) => Ok(Some(v)),
            Err(e) => Err(e),
        },
    }
}

fn hash_to_change(password: &Option<String>) -> (r: Result<Option<Option<String>>, AppError>)
    ensures
        match r {
            Ok(change) => !too_long(opt_view(*password)) && password_change(
                opt_view(*password),
                change_view(change),
            ),
            Err(e) => too_long(opt_view(*password)) && e@ == ErrorView::Internal(
                "password hashing failed"@,
            ),
        },
{
    match password {
        None => Ok(None),
        Some(p) => if p.as_str().is_empty() {
            assert(encode_utf8(p@).len() == 0) by {
                assert(p@ =~= Seq::<char>::empty());
                reveal_with_fuel(encode_utf8, 1);
            }
            Ok(Some(None))
        } else {
            match hash_password(p.as_str()) {
                Ok(h) => Ok(Some(Some(h))),
                Err(e) => Err(e),
            }
        },
    }
}

/// Changes settings of a share, at a given time.
pub fn update_share_at(registry: &mut Registry, id: &str, body: &UpdateShareRequest, now: i64) -> (r:
    Result<(), AppError>)
    requires
        old(registry).wf(),
    ensures
        final(registry).wf(),
        exists|change: Option<Option<Seq<char>>>| #[trigger]
            update(old(registry)@, final(registry)@, id@, *body, change, now, outcome(r)),
{
    let ghost mut change: Option<Option<Seq<char>>> = None;
    let r = if db::get_share(registry, id).is_none() {
        Err(AppError::NotFound)
    } else {
        match expiry_to_change(&body.expires, now) {
            Err(e) => Err(e),
            Ok(expires_at) => match limit_to_change(&body.max_downloads) {
                Err(e) => Err(e),
                Ok(max_downloads) => match hash_to_change(&body.password) {
                    Err(e) => Err(e),
                    Ok(password_hash) => {
                        proof {
                            change = change_view(password_hash);
                        }
                        db::update_share_settings(
                            registry,
                            id,
                            expires_at,
                            max_downloads,
                            password_hash,
                        );
                        Ok(())
                    },
                },
            },
        }
    };
    assert(update(old(registry)@, registry@, id@, *body, change, now, outcome(r)));
    r
}

/// Changes settings of a share.
pub fn update_share(registry: &mut Registry, id: &str, body: &UpdateShareRequest) -> (r: Result<
    (),
    AppError,
>)
    requires
        old(registry).wf(),
    ensures
        final(registry).wf(),
        exists|change: Option<Option<Seq<char>>>, now: i64|
            on_clock(now) && #[trigger] update(
                old(registry)@,
                final(registry)@,
                id@,
                *body,
                change,
                now,
                outcome(r),
            ),
{
    update_share_at(registry, id, body, now_ts())
}

/// Revokes a share.
pub fn revoke_share(registry: &mut Registry, id: &str) -> (r: Result<(), AppError>)
    requires
        old(registry).wf(),
    ensures
        final(registry).wf(),
        final(registry)@ == old(registry)@.after_revoke(id@),
        match r {
            Ok(_) => old(registry)@.shares.contains_key(id@),
            Err(e) => !old(registry)@.shares.contains_key(id@) && e@ == ErrorView::NotFound,
        },
{
    if db::revoke_share(registry, id) {
        Ok(())
    } else {
        Err(AppError::NotFound)
    }
}

/// Whether the file is to go along with the share.
pub struct DeleteQuery {
    pub delete_file: bool,
}

/// What is to be removed from the disk along with a share.
pub enum Removal {
    Nothing,
    File(String),
    Folder(String),
}

/// What is to be removed from the disk, by what it stands for.
pub enum RemovalView {
    Nothing,
    File(Seq<char>),
    Folder(Seq<char>),
}

impl View for Removal {
    type V = RemovalView;

    open spec fn view(&self) -> RemovalView {
        match *self {
            Removal::Nothing => RemovalView::Nothing,
            Removal::File(p) => RemovalView::File(p@),
            Removal::Folder(p) => RemovalView::Folder(p@),
        }
    }
}

/// What is to be removed along with a share. Nothing goes unasked.
pub open spec fn removal(s: ShareView, delete_file: bool) -> RemovalView {
    if !delete_file {
        RemovalView::Nothing
    } else if s.is_folder {
        RemovalView::Folder(s.file_path)
    } else {
        RemovalView::File(s.file_path)
    }
}

/// Takes a share out of the registry, and says what is to be removed from the
/// disk along with it.
pub fn delete_share(registry: &mut Registry, id: &str, query: &DeleteQuery) -> (r: Result<
    Removal,
    AppError,
>)
    requires
        old(registry).wf(),
    ensures
        final(registry).wf(),
        match r {
            Ok(what) => {
                &&& old(registry)@.shares.contains_key(id@)
                &&& final(registry)@ == old(registry)@.after_delete(id@)
                &&& what@ == removal(old(registry)@.shares[id@], query.delete_file)
            },
            Err(e) => {
                &&& !old(registry)@.shares.contains_key(id@)
                &&& final(registry)@ == old(registry)@
                &&& e@ == ErrorView::NotFound
            },
        },
{
    let share = match db::get_share(registry, id) {
        Some(share) => share,
        None => {
            return Err(AppError::NotFound);
        },
    };
    db::delete_share(registry, id);
    if !query.delete_file {
        Ok(Removal::Nothing)
    } else if share.is_folder {
        Ok(Removal::Folder(share.file_path))
    } else {
        Ok(Removal::File(share.file_path))
    }
}

} // verus!
