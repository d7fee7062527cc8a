use tempshare::db::{self, DbError, Registry, Share, ShareEntry};
use tempshare::download::{
    admit_download, admit_download_at, claim_download_session_at, download, download_at,
    generate_folder_archive, load_active_share, share_info, share_info_at, share_page,
    share_page_at, unlock_share, unlock_share_at, Accounting, DownloadHead, DownloadReply,
    PageReply, StreamEvent, UnlockReply, UnlockRequest,
};
use tempshare::error::{AppError, ErrorReply};
use tempshare::guard::validate_management_request;
use tempshare::headers::RequestHeaders;
use tempshare::net::IpAddr;
use tempshare::routes::{management_router, public_router, upload_limit, Action, Method};
use tempshare::shares::{
    self, create_folder_share, create_share, CreatedShare, DeleteQuery, Field, FolderUpload,
    Removal, UpdateShareRequest, Upload,
};
use tempshare::state::{AppState, Config, NANOS_PER_SEC};
use tempshare::tunnel::{Tunnel, TunnelAction, TunnelEvent};

const SENDER: IpAddr = IpAddr::V4(0x7f00_0001);
const RECIPIENT: IpAddr = IpAddr::V4(0xcb00_710a);
const SOMEBODY_ELSE: IpAddr = IpAddr::V4(0xcb00_710b);
const TICK: u128 = 1_000_000_000_000;

fn test_config() -> Config {
    Config {
        bind_addr: "127.0.0.1:0".to_string(),
        public_bind_addr: "127.0.0.1:0".to_string(),
        public_base_url: "http://127.0.0.1:7421".to_string(),
        auto_tunnel: false,
        storage_dir: "storage".to_string(),
        db_path: "test.db".to_string(),
        max_upload_bytes: 1024 * 1024,
        global_rate_limit_per_min: 1000,
        failed_auth_max: 5,
        failed_auth_window_secs: 300,
        unlock_token_ttl_secs: 900,
        bandwidth_bytes_per_sec: 0,
    }
}

fn test_state() -> AppState {
    AppState::new(test_config())
}

fn request() -> RequestHeaders {
    RequestHeaders {
        host: None,
        origin: None,
        range: None,
        cookie: None,
        unlock_token: None,
        forwarded_ip: None,
    }
}

fn request_for(range: &str) -> RequestHeaders {
    let mut headers = request();
    headers.range = Some(range.as_bytes().to_vec());
    headers
}

fn plain_share(id: &str) -> Share {
    Share {
        id: id.to_string(),
        display_name: "data.bin".to_string(),
        file_path: format!("storage/{id}"),
        size_bytes: 10,
        is_folder: false,
        created_at: 1000,
        expires_at: None,
        max_downloads: None,
        download_count: 0,
        password_hash: None,
        status: "active".to_string(),
    }
}

fn with_share(share: &Share) -> Registry {
    let mut registry = Registry::new();
    db::insert_share(&mut registry, share).unwrap();
    registry
}

fn received(name: &str, chunks: &[usize], fields: &[(&str, &str)]) -> Upload {
    let mut upload = Upload::begin();
    for (field, value) in fields {
        let field = upload.start_field(field, None).unwrap();
        upload.take_text(field, value.as_bytes());
    }
    assert_eq!(upload.start_field("file", Some(name)).unwrap(), Field::File);
    for len in chunks {
        upload.take_chunk(*len, 1024 * 1024).unwrap();
    }
    upload.end_file();
    upload
}

fn created(r: Result<CreatedShare, AppError>) -> CreatedShare {
    match r {
        Ok(created) => created,
        Err(e) => panic!("{}", e.to_text()),
    }
}

fn bytes(r: Result<DownloadReply, AppError>) -> (DownloadHead, u64, u64) {
    match r {
        Ok(DownloadReply::Bytes { head, start, len }) => (head, start, len),
        Ok(_) => panic!("no bytes"),
        Err(e) => panic!("{}", e.to_text()),
    }
}

fn page(r: Result<PageReply, AppError>) -> PageReply {
    match r {
        Ok(page) => page,
        Err(e) => panic!("{}", e.to_text()),
    }
}

fn unlocked(r: Result<UnlockReply, AppError>) -> UnlockReply {
    match r {
        Ok(reply) => reply,
        Err(e) => panic!("{}", e.to_text()),
    }
}

fn password(text: &str) -> UnlockRequest {
    UnlockRequest { password: text.to_string() }
}

#[test]
fn create_and_download_full_file() {
    let mut state = test_state();
    let mut registry = Registry::new();
    let content = b"hello tempshare, this is the file body";
    let upload = received(
        "greeting.txt",
        &[content.len()],
        &[("expires", "never"), ("max_downloads", "unlimited"), ("password", "")],
    );
    let reply = created(create_share(&state, &mut registry, &upload, "storage/x"));
    assert_eq!(reply.download_url, format!("/download/{}", reply.id));
    assert_eq!(
        reply.public_download_url,
        format!("http://127.0.0.1:7421/s/{}", reply.id)
    );

    let share = admit_download(&mut state, &registry, SENDER, &reply.id, &request(), TICK).unwrap();
    assert_eq!(share.file_path, "storage/x");
    assert_eq!(share.size_bytes, content.len() as i64);
    let (head, start, len) = bytes(download(
        &mut state,
        &mut registry,
        &share,
        SENDER,
        &reply.id,
        &request(),
        content.len() as u64,
        TICK,
    ));
    assert_eq!(head.status, 200);
    assert_eq!(head.accept_ranges, "bytes");
    assert_eq!(head.content_type, "application/octet-stream");
    assert_eq!(head.content_length, "38");
    assert_eq!(head.cache_control, "no-store");
    assert_eq!(head.content_range, None);
    assert_eq!(&content[start as usize..(start + len) as usize], content);

    let mut accounting = Accounting::new(reply.id.clone(), SENDER, len);
    assert!(accounting.note(StreamEvent::Sent(len as usize)).is_none());
    let event = accounting.note(StreamEvent::Ended).unwrap();
    assert_eq!(event.share_id, reply.id);
    assert_eq!(event.bytes_transferred, content.len() as i64);
    assert!(event.completed);
    assert!(accounting.note(StreamEvent::Dropped).is_none());
    db::record_download_event(
        &mut registry,
        &event.share_id,
        event.ip,
        event.timestamp,
        event.bytes_transferred,
        event.completed,
    )
    .unwrap();
}

#[test]
fn range_request_returns_partial_content() {
    let mut state = test_state();
    let mut registry = Registry::new();
    let content = b"0123456789ABCDEFGHIJ";
    let upload = received(
        "data.bin",
        &[content.len()],
        &[("expires", "never"), ("max_downloads", "unlimited"), ("password", "")],
    );
    let id = created(create_share(&state, &mut registry, &upload, "storage/x")).id;
    let headers = request_for("bytes=5-9");
    let share = admit_download(&mut state, &registry, SENDER, &id, &headers, TICK).unwrap();
    let (head, start, len) = bytes(download(
        &mut state,
        &mut registry,
        &share,
        SENDER,
        &id,
        &headers,
        20,
        TICK,
    ));
    assert_eq!(head.status, 206);
    assert_eq!(head.content_range.as_deref(), Some("bytes 5-9/20"));
    assert_eq!(head.content_length, "5");
    assert_eq!(&content[start as usize..(start + len) as usize], b"56789");
}

#[test]
fn nonexistent_share_returns_404_not_500() {
    let mut state = test_state();
    let registry = Registry::new();
    let id = "this-id-was-never-issued-xyz";
    let refused = admit_download(&mut state, &registry, SENDER, id, &request(), TICK).unwrap_err();
    let ErrorReply { status, error } = refused.into_response();
    assert_eq!(status, 404);
    assert_eq!(error, "not found");
}

#[test]
fn password_protected_share_requires_unlock() {
    let mut state = test_state();
    let mut registry = Registry::new();
    let content = b"top secret payload";
    let upload = received(
        "secret.txt",
        &[content.len()],
        &[("expires", "never"), ("max_downloads", "unlimited"), ("password", "correct-horse")],
    );
    let id = created(create_share(&state, &mut registry, &upload, "storage/x")).id;

    // Without unlocking: 401.
    let refused = admit_download(&mut state, &registry, SENDER, &id, &request(), TICK).unwrap_err();
    assert_eq!(refused.into_response().status, 401);

    let page = page(share_page(&mut state, &registry, SENDER, &id, &request(), TICK));
    assert!(page.cookie.starts_with("tempshare_session="));
    assert!(page.html.contains("Unlock and download"));
    assert!(share_info(&registry, &id).is_ok_and(|info| info.requires_password));

    // Wrong password: 401.
    let wrong = unlock_share(
        &mut state,
        &mut registry,
        SENDER,
        &id,
        &request(),
        &password("wrong"),
        TICK,
    );
    assert!(wrong.is_err_and(|e| e.into_response().status == 401));

    // The correct password unlocks and returns a token usable for the download.
    let reply = unlocked(unlock_share(
        &mut state,
        &mut registry,
        SENDER,
        &id,
        &request(),
        &password("correct-horse"),
        TICK,
    ));
    let token = reply.token.unwrap();
    assert_eq!(
        reply.cookie.unwrap(),
        format!(
            "tempshare_unlock={token}; Path=/download/{id}; Max-Age=900; HttpOnly; Secure; SameSite=Strict"
        )
    );
    let mut headers = request();
    headers.unlock_token = Some(token.as_bytes().to_vec());
    let share = admit_download(&mut state, &registry, SENDER, &id, &headers, TICK).unwrap();
    let (head, _, _) = bytes(download(
        &mut state,
        &mut registry,
        &share,
        SENDER,
        &id,
        &headers,
        content.len() as u64,
        TICK,
    ));
    assert_eq!(head.status, 200);

    // The cookie does the same; another address, and a later time, do not.
    let mut headers = request();
    headers.cookie = Some(format!("tempshare_unlock={token}").into_bytes());
    assert!(admit_download(&mut state, &registry, SENDER, &id, &headers, TICK).is_ok());
    assert!(matches!(
        admit_download(&mut state, &registry, RECIPIENT, &id, &headers, TICK),
        Err(AppError::PasswordRequired)
    ));
    let over = TICK + 900 * NANOS_PER_SEC;
    assert!(admit_download(&mut state, &registry, SENDER, &id, &headers, over - 1).is_ok());
    assert!(matches!(
        admit_download(&mut state, &registry, SENDER, &id, &headers, over),
        Err(AppError::PasswordRequired)
    ));
    assert_eq!(state.unlock_tokens.len(), 0);
}

#[test]
fn revoked_share_is_unreachable() {
    let mut state = test_state();
    let mut registry = Registry::new();
    let upload = received(
        "f.txt",
        &[4],
        &[("expires", "never"), ("max_downloads", "unlimited"), ("password", "")],
    );
    let id = created(create_share(&state, &mut registry, &upload, "storage/x")).id;
    assert!(shares::revoke_share(&mut registry, &id).is_ok());
    let refused = admit_download(&mut state, &registry, SENDER, &id, &request(), TICK).unwrap_err();
    assert_eq!(refused.into_response().status, 404);

    // Nothing but putting it in anew brings it back.
    let body = UpdateShareRequest {
        expires: Some("never".to_string()),
        max_downloads: Some("unlimited".to_string()),
        password: Some(String::new()),
    };
    assert!(shares::update_share(&mut registry, &id, &body).is_ok());
    assert!(matches!(load_active_share(&registry, &id), Err(AppError::NotFound)));
    assert!(!db::claim_download(&mut registry, &id, 0));
    assert!(matches!(
        shares::revoke_share(&mut registry, "nobody"),
        Err(AppError::NotFound)
    ));
}

#[test]
fn upload_exceeding_max_size_is_rejected() {
    let mut upload = Upload::begin();
    upload.start_field("file", Some("big.bin")).unwrap();
    let mut refused = None;
    for _ in 0..32 {
        if let Err(e) = upload.take_chunk(64 * 1024, 1024 * 1024) {
            refused = Some(e);
            break;
        }
    }
    assert_eq!(upload.size_bytes, 1024 * 1024);
    let reply = refused.unwrap().into_response();
    assert_eq!(reply.status, 400);
    assert_eq!(reply.error, "file exceeds maximum allowed size");

    let mut folder = FolderUpload::begin();
    folder.start_field("file", None);
    folder.take_chunk(1000, 1000).unwrap();
    assert!(matches!(folder.take_chunk(1, 1000),
        Err(AppError::BadRequest(m)) if m == "folder exceeds maximum allowed size"));
}

#[test]
fn public_router_cannot_reach_management_routes() {
    let routes = public_router();
    for (method, uri) in [
        (Method::Get, "/api/shares"),
        (Method::Post, "/api/shares"),
        (Method::Patch, "/api/shares/:id"),
        (Method::Post, "/api/shares/:id/revoke"),
        (Method::Delete, "/api/shares/:id"),
        (Method::Get, "/api/status"),
        (Method::Get, "/"),
    ] {
        assert!(routes.iter().all(|r| r.path != uri), "{method:?} {uri}");
    }
    assert_eq!(routes.len(), 4);
    for (path, action) in [
        ("/s/:id", Action::SharePage),
        ("/download/:id", Action::Download),
        ("/api/download/:id/info", Action::ShareInfo),
        ("/api/download/:id/unlock", Action::UnlockShare),
    ] {
        let method =
            if action == Action::UnlockShare { Method::Post } else { Method::Get };
        assert!(routes
            .iter()
            .any(|r| r.method == method && r.path == path && r.action == action));
    }
}

#[test]
fn management_routes_take_long_bodies() {
    let routes = management_router(1024);
    assert_eq!(routes.len(), 11);
    let create = routes.iter().find(|r| r.action == Action::CreateShare).unwrap();
    assert_eq!(create.path, "/api/shares");
    assert_eq!(create.method, Method::Post);
    assert_eq!(create.body_limit, Some(16 * 1024 * 1024 + 1024));
    let page = routes.iter().find(|r| r.action == Action::SharePage).unwrap();
    assert_eq!(page.body_limit, None);
    assert_eq!(upload_limit(0), 16 * 1024 * 1024);
    assert_eq!(upload_limit(u64::MAX), usize::MAX);
}

#[test]
fn malformed_ranges_are_rejected_instead_of_serving_full_file() {
    let mut state = test_state();
    let mut registry = with_share(&plain_share("range-id"));
    for value in [
        "bytes=5-2",
        "bytes=-",
        "bytes=999999999999999999999999-",
        "bytes=1-2,4-5",
        "bytes=abc-def",
    ] {
        let headers = request_for(value);
        let share =
            admit_download(&mut state, &registry, SENDER, "range-id", &headers, TICK).unwrap();
        let reply = download(
            &mut state,
            &mut registry,
            &share,
            SENDER,
            "range-id",
            &headers,
            10,
            TICK,
        );
        assert!(
            matches!(reply, Ok(DownloadReply::NotSatisfiable { content_range })
                if content_range == "bytes */10"),
            "{value}"
        );
    }
    assert_eq!(db::get_share(&registry, "range-id").unwrap().download_count, 0);
}

#[test]
fn empty_file_is_served_and_counted() {
    let mut state = test_state();
    let mut registry = with_share(&plain_share("empty"));
    let share = db::get_share(&registry, "empty").unwrap();
    let reply = download(
        &mut state,
        &mut registry,
        &share,
        SENDER,
        "empty",
        &request(),
        0,
        TICK,
    );
    match reply {
        Ok(DownloadReply::Empty { head }) => {
            assert_eq!(head.status, 200);
            assert_eq!(head.content_length, "0");
        }
        _ => panic!("not empty"),
    }
    assert_eq!(db::get_share(&registry, "empty").unwrap().download_count, 1);
}

#[test]
fn folder_share_downloads_as_zip_with_safe_opaque_storage() {
    let mut state = test_state();
    let mut registry = Registry::new();
    let mut upload = FolderUpload::begin();
    for (name, chunks) in [("docs/readme.txt", &[6usize, 7][..]), ("docs/nested/data.bin", &[3][..])] {
        assert_eq!(upload.start_field("file", Some(name)), Field::File);
        for len in chunks {
            upload.take_chunk(*len, 1024 * 1024).unwrap();
        }
        upload.end_file();
    }
    for (name, value) in [
        ("folder_name", "docs"),
        ("expires", "never"),
        ("max_downloads", "unlimited"),
        ("password", ""),
    ] {
        let field = upload.start_field(name, None);
        upload.take_text(field, value.as_bytes());
    }
    let id = created(create_folder_share(&state, &mut registry, &upload, "storage/folder")).id;
    let share = db::get_share(&registry, &id).unwrap();
    assert!(share.is_folder);
    assert_eq!(share.display_name, "docs.zip");
    assert_eq!(share.size_bytes, 16);
    assert_eq!(share.file_path, "storage/folder");
    for entry in db::list_share_entries(&registry, &id) {
        assert!(!entry.stored_name.contains(['/', '\\']));
        assert_eq!(entry.stored_name.len(), 22);
    }

    let plan = generate_folder_archive(&registry, &id).unwrap_or_else(|e| panic!("{}", e.to_text()));
    assert!(plan.file_name.starts_with(".archive-") && plan.file_name.ends_with(".zip"));
    let names: Vec<&str> = plan.entries.iter().map(|e| e.display_name.as_str()).collect();
    assert_eq!(names, vec!["docs/readme.txt", "docs/nested/data.bin"]);
    let sizes: Vec<i64> = plan.entries.iter().map(|e| e.size_bytes).collect();
    assert_eq!(sizes, vec![13, 3]);

    let (head, _, len) = bytes(download(
        &mut state,
        &mut registry,
        &share,
        SENDER,
        &id,
        &request(),
        321,
        TICK,
    ));
    assert_eq!(head.status, 200);
    assert_eq!(head.content_type, "application/zip");
    assert_eq!(len, 321);
    assert!(matches!(generate_folder_archive(&registry, "other"), Err(AppError::NotFound)));
}

#[test]
fn management_router_rejects_dns_rebinding_host_and_foreign_origin() {
    let mut host = request();
    host.host = Some(b"attacker.example".to_vec());
    let mut origin = request();
    origin.host = Some(b"127.0.0.1:7420".to_vec());
    origin.origin = Some(b"https://attacker.example".to_vec());
    let no = validate_management_request(&host).unwrap();
    assert_eq!(no.status, 403);
    assert_eq!(no.message, "management interface is local-only");
    let no = validate_management_request(&origin).unwrap();
    assert_eq!(no.status, 403);
    assert_eq!(no.message, "cross-origin management request rejected");
}

#[test]
fn management_router_lets_the_dashboard_in() {
    for host in ["127.0.0.1:7420", "LOCALHOST", "localhost:80", "[::1]:7420", "[::1]"] {
        let mut headers = request();
        headers.host = Some(host.as_bytes().to_vec());
        headers.origin = Some(b"http://localhost:7420".to_vec());
        assert!(validate_management_request(&headers).is_none(), "{host}");
    }
    for host in ["localhost.attacker.example", "[::2]", "::1", "", "127.0.0.2", "[localhost"] {
        let mut headers = request();
        headers.host = Some(host.as_bytes().to_vec());
        assert!(validate_management_request(&headers).is_some(), "{host}");
    }
    for origin in ["null", "http://localhost", "http://localhost.attacker.example:80", "ftp://localhost:1"] {
        let mut headers = request();
        headers.origin = Some(origin.as_bytes().to_vec());
        assert!(validate_management_request(&headers).is_some(), "{origin}");
    }
    let mut headers = request();
    headers.host = Some(vec![0xff]);
    assert!(validate_management_request(&headers).is_none());
    assert!(validate_management_request(&request()).is_none());
}

#[test]
fn one_recipient_session_can_resume_without_consuming_extra_downloads() {
    let mut state = test_state();
    let mut share = plain_share("resume-id");
    share.display_name = "محاضرة.mp4".to_string();
    share.max_downloads = Some(1);
    let mut registry = with_share(&share);
    let content = b"0123456789";

    let mut visit = request();
    visit.forwarded_ip = Some(RECIPIENT);
    let page = page(share_page(&mut state, &registry, SENDER, "resume-id", &visit, TICK));
    let session_cookie = page.cookie.split(';').next().unwrap().to_string();

    for (range, expected) in [("bytes=0-4", &b"01234"[..]), ("bytes=5-9", &b"56789"[..])] {
        let mut headers = request_for(range);
        headers.forwarded_ip = Some(RECIPIENT);
        headers.cookie = Some(session_cookie.as_bytes().to_vec());
        let share =
            admit_download(&mut state, &registry, SENDER, "resume-id", &headers, TICK).unwrap();
        let (head, start, len) = bytes(download(
            &mut state,
            &mut registry,
            &share,
            SENDER,
            "resume-id",
            &headers,
            10,
            TICK,
        ));
        assert_eq!(head.status, 206);
        assert_eq!(&content[start as usize..(start + len) as usize], expected);
    }
    assert_eq!(db::get_share(&registry, "resume-id").unwrap().download_count, 1);

    let mut headers = request();
    headers.forwarded_ip = Some(SOMEBODY_ELSE);
    let refused =
        admit_download(&mut state, &registry, SENDER, "resume-id", &headers, TICK).unwrap_err();
    assert_eq!(refused.into_response().status, 404);

    // The cookie of the visit does not help from another address, nor after a day.
    headers.cookie = Some(session_cookie.as_bytes().to_vec());
    assert!(admit_download(&mut state, &registry, SENDER, "resume-id", &headers, TICK).is_err());
    headers.forwarded_ip = Some(RECIPIENT);
    let day = 86_400 * NANOS_PER_SEC;
    assert!(
        admit_download(&mut state, &registry, SENDER, "resume-id", &headers, TICK + day - 1).is_ok()
    );
    assert!(admit_download(&mut state, &registry, SENDER, "resume-id", &headers, TICK + day).is_err());
}

#[test]
fn limit_is_checked_again_when_the_download_is_claimed() {
    let mut state = test_state();
    let mut share = plain_share("once");
    share.max_downloads = Some(1);
    let mut registry = with_share(&share);
    // Two requests are let through before either is counted.
    let first = admit_download(&mut state, &registry, SENDER, "once", &request(), TICK).unwrap();
    let second = admit_download(&mut state, &registry, SENDER, "once", &request(), TICK).unwrap();
    assert!(download(&mut state, &mut registry, &first, SENDER, "once", &request(), 10, TICK).is_ok());
    assert!(matches!(
        download(&mut state, &mut registry, &second, SENDER, "once", &request(), 10, TICK),
        Err(AppError::NotFound)
    ));
    assert_eq!(db::get_share(&registry, "once").unwrap().download_count, 1);
}

#[test]
fn claims_do_not_exceed_the_limit() {
    let mut share = plain_share("few");
    share.max_downloads = Some(3);
    let mut registry = with_share(&share);
    let granted = (0..10).filter(|_| db::claim_download(&mut registry, "few", 5)).count();
    assert_eq!(granted, 3);
    assert_eq!(db::get_share(&registry, "few").unwrap().download_count, 3);
    db::increment_download_count(&mut registry, "few");
    assert_eq!(db::get_share(&registry, "few").unwrap().download_count, 4);
}

#[test]
fn expired_share_is_not_served() {
    let mut state = test_state();
    let mut share = plain_share("old");
    share.expires_at = Some(2000);
    let registry = with_share(&share);
    assert!(admit_download_at(&mut state, &registry, SENDER, "old", &request(), 1999, TICK).is_ok());
    assert!(matches!(
        admit_download_at(&mut state, &registry, SENDER, "old", &request(), 2000, TICK),
        Err(AppError::NotFound)
    ));
    assert!(share_info_at(&registry, "old", 1999).is_ok());
    assert!(matches!(share_info_at(&registry, "old", 2000), Err(AppError::NotFound)));
}

#[test]
fn expiry_sweep_revokes_what_is_over() {
    let mut registry = Registry::new();
    for (id, expires_at) in [("a", Some(10)), ("b", Some(11)), ("c", None)] {
        let mut share = plain_share(id);
        share.expires_at = expires_at;
        db::insert_share(&mut registry, &share).unwrap();
    }
    let expired = db::delete_expired_shares(&mut registry, 10);
    assert_eq!(expired.len(), 1);
    assert_eq!(expired[0].id, "a");
    assert_eq!(expired[0].status, "active");
    assert_eq!(db::get_share(&registry, "a").unwrap().status, "revoked");
    assert_eq!(db::get_share(&registry, "b").unwrap().status, "active");
    assert!(db::delete_expired_shares(&mut registry, 10).is_empty());
}

#[test]
fn guessing_is_stopped() {
    let mut state = test_state();
    let mut share = plain_share("locked");
    share.password_hash = Some(tempshare::auth::hash_password("right").unwrap());
    let mut registry = with_share(&share);
    let mut guess = |state: &mut AppState, registry: &mut Registry, ip, text, now| {
        unlock_share_at(
            state,
            registry,
            ip,
            "locked",
            &password(text),
            "token".to_string(),
            now,
            TICK,
        )
    };
    for i in 0..5 {
        assert!(matches!(
            guess(&mut state, &mut registry, RECIPIENT, "wrong", 1000 + i),
            Err(AppError::IncorrectPassword)
        ));
    }
    // Not even the right password is looked at any more.
    assert!(matches!(
        guess(&mut state, &mut registry, RECIPIENT, "right", 1010),
        Err(AppError::RateLimited)
    ));
    assert!(matches!(
        guess(&mut state, &mut registry, RECIPIENT, "right", 1300),
        Err(AppError::RateLimited)
    ));
    assert_eq!(db::count_recent_failed_auth(&registry, "locked", RECIPIENT, 1000), 5);
    assert_eq!(db::count_recent_failed_auth(&registry, "locked", RECIPIENT, 1001), 4);
    // Somebody else is not held up, and after a while neither is the first one.
    assert!(guess(&mut state, &mut registry, SOMEBODY_ELSE, "right", 1010).is_ok());
    assert!(guess(&mut state, &mut registry, RECIPIENT, "right", 1301).is_ok());
}

#[test]
fn unprotected_share_has_nothing_to_unlock() {
    let mut state = test_state();
    let mut registry = with_share(&plain_share("open"));
    let reply = unlocked(unlock_share(
        &mut state,
        &mut registry,
        SENDER,
        "open",
        &request(),
        &password("anything"),
        TICK,
    ));
    assert!(reply.token.is_none() && reply.cookie.is_none());
    assert!(matches!(
        unlock_share(
            &mut state,
            &mut registry,
            SENDER,
            "gone",
            &request(),
            &password("anything"),
            TICK
        ),
        Err(AppError::NotFound)
    ));
}

#[test]
fn downloads_are_rate_limited() {
    let mut config = test_config();
    config.global_rate_limit_per_min = 2;
    let mut state = AppState::new(config);
    let registry = with_share(&plain_share("x"));
    for _ in 0..2 {
        assert!(admit_download(&mut state, &registry, SENDER, "x", &request(), TICK).is_ok());
    }
    let refused = admit_download(&mut state, &registry, SENDER, "x", &request(), TICK).unwrap_err();
    let reply = refused.into_response();
    assert_eq!(reply.status, 429);
    assert_eq!(reply.error, "too many requests, slow down");
    let later = TICK + 60 * NANOS_PER_SEC;
    assert!(admit_download(&mut state, &registry, SENDER, "x", &request(), later).is_ok());
}

#[test]
fn page_has_its_policies() {
    let mut state = test_state();
    let registry = with_share(&plain_share("x"));
    let reply = page(share_page_at(
        &mut state,
        &registry,
        RECIPIENT,
        "x",
        "token".to_string(),
        1000,
        TICK,
    ));
    assert_eq!(
        reply.cookie,
        "tempshare_session=token; Path=/download/x; Max-Age=86400; HttpOnly; Secure; SameSite=Strict"
    );
    assert_eq!(reply.referrer_policy, "no-referrer");
    assert_eq!(reply.content_type_options, "nosniff");
    assert!(reply.content_security_policy.starts_with("default-src 'none';"));
    assert_eq!(state.download_sessions.len(), 1);
    assert!(matches!(
        share_page_at(&mut state, &registry, RECIPIENT, "y", "t2".to_string(), 1000, TICK),
        Err(AppError::NotFound)
    ));
    assert_eq!(state.download_sessions.len(), 1);
    state.sweep_unlock_tokens(TICK + 86_400 * NANOS_PER_SEC - 1);
    assert_eq!(state.download_sessions.len(), 1);
    state.sweep_unlock_tokens(TICK + 86_400 * NANOS_PER_SEC);
    assert_eq!(state.download_sessions.len(), 0);
}

#[test]
fn id_that_is_no_header_value_gets_no_cookie() {
    let mut state = test_state();
    let mut registry = with_share(&plain_share("a\nb"));
    assert!(matches!(
        share_page_at(&mut state, &registry, SENDER, "a\nb", "t".to_string(), 1000, TICK),
        Err(AppError::Internal(_))
    ));
    let mut share = plain_share("c\nd");
    share.password_hash = Some(tempshare::auth::hash_password("p").unwrap());
    db::insert_share(&mut registry, &share).unwrap();
    let refused = unlock_share_at(
        &mut state,
        &mut registry,
        SENDER,
        "c\nd",
        &password("p"),
        "t".to_string(),
        1000,
        TICK,
    );
    match refused {
        Err(e) => {
            let reply = e.into_response();
            assert_eq!(reply.status, 500);
            assert_eq!(reply.error, "internal server error");
        }
        Ok(_) => panic!("cookie with a line break"),
    }
}

#[test]
fn recipients_are_told_no_more_than_they_need() {
    let mut share = plain_share("x");
    share.display_name = "report.pdf".to_string();
    let registry = with_share(&share);
    match share_info(&registry, "x") {
        Ok(info) => {
            assert_eq!(info.id, "x");
            assert_eq!(info.display_name, "report.pdf");
            assert_eq!(info.size_bytes, 10);
            assert!(!info.requires_password);
        }
        Err(e) => panic!("{}", e.to_text()),
    }
    let listed = shares::list_shares(&registry);
    assert_eq!(listed.len(), 1);
    assert!(!format!("{listed:?}").contains("storage/"));
}

#[test]
fn shares_are_listed_newest_first() {
    let mut registry = Registry::new();
    for (id, created_at) in [("a", 5), ("b", 9), ("c", 7)] {
        let mut share = plain_share(id);
        share.created_at = created_at;
        db::insert_share(&mut registry, &share).unwrap();
    }
    let ids: Vec<String> = shares::list_shares(&registry).into_iter().map(|s| s.id).collect();
    assert_eq!(ids, vec!["b", "c", "a"]);
}

#[test]
fn form_errors_are_told_apart() {
    let state = test_state();
    let mut registry = Registry::new();
    let refused = |registry: &mut Registry, upload: &Upload| match create_share(
        &state,
        registry,
        upload,
        "storage/x",
    ) {
        Err(AppError::BadRequest(m)) => m,
        _ => panic!("not refused"),
    };
    assert_eq!(refused(&mut registry, &Upload::begin()), "no file provided");
    assert_eq!(
        refused(&mut registry, &received("x", &[], &[("expires", "x")])),
        "invalid expiry value"
    );
    assert_eq!(
        refused(&mut registry, &received("x", &[], &[("max_downloads", "-1")])),
        "max_downloads must be positive"
    );
    let mut twice = received("x", &[1], &[]);
    assert!(matches!(twice.start_field("file", Some("y")),
        Err(AppError::BadRequest(m)) if m == "only one file may be uploaded per share"));
    assert!(matches!(
        create_folder_share(&state, &mut registry, &FolderUpload::begin(), "storage/f"),
        Err(AppError::BadRequest(m)) if m == "no files provided"
    ));
    assert!(shares::list_shares(&registry).is_empty());
}

#[test]
fn form_fields_are_read() {
    let mut upload = Upload::new("id".to_string());
    for (name, value) in [
        ("expires", " 1h "),
        ("max_downloads", "4"),
        ("password", "first"),
        ("password", "  "),
        ("folder_name", "ignored"),
        ("later_version", "ignored"),
    ] {
        let field = upload.start_field(name, None).unwrap();
        upload.take_text(field, value.as_bytes());
    }
    assert_eq!(upload.form.expires, "1h");
    assert_eq!(upload.form.max_downloads, "4");
    assert_eq!(upload.form.password.as_deref(), Some("first"));
    assert_eq!(upload.original_name, None);
    upload.start_field("file", None).unwrap();
    assert_eq!(upload.original_name.as_deref(), Some("download.bin"));

    let mut folder = FolderUpload::new("id".to_string());
    assert_eq!(folder.folder_name, "shared-folder");
    let field = folder.start_field("folder_name", None);
    folder.take_text(field, b"My/Stuff.ZIP");
    assert_eq!(folder.folder_name, "My_Stuff.ZIP");
    folder.start_field_as("file", None, "stored".to_string());
    folder.end_file();
    assert_eq!(folder.entries[0].display_name, "file.bin");
    let state = test_state();
    let mut registry = Registry::new();
    created(create_folder_share(&state, &mut registry, &folder, "storage/f"));
    assert_eq!(db::get_share(&registry, "id").unwrap().display_name, "My_Stuff.ZIP");
}

#[test]
fn taken_ids_and_names_are_refused() {
    let state = test_state();
    let mut registry = with_share(&plain_share("id"));
    assert!(matches!(
        db::insert_share(&mut registry, &plain_share("id")),
        Err(DbError::DuplicateShare)
    ));
    let mut upload = Upload::new("id".to_string());
    upload.start_field("file", None).unwrap();
    upload.end_file();
    assert!(matches!(
        create_share(&state, &mut registry, &upload, "storage/x"),
        Err(AppError::Internal(_))
    ));
    let entry = ShareEntry {
        stored_name: "s".to_string(),
        display_name: "d".to_string(),
        size_bytes: 1,
    };
    assert!(matches!(
        db::insert_folder_share(&mut registry, &plain_share("f"), &[entry.clone(), entry]),
        Err(DbError::DuplicateEntry)
    ));
    assert!(db::get_share(&registry, "f").is_none());
}

#[test]
fn settings_can_be_changed() {
    let mut registry = with_share(&plain_share("x"));
    let none = UpdateShareRequest { expires: None, max_downloads: None, password: None };
    assert!(shares::update_share(&mut registry, "x", &none).is_ok());
    let share = db::get_share(&registry, "x").unwrap();
    assert_eq!((share.expires_at, share.max_downloads), (None, None));
    let all = UpdateShareRequest {
        expires: Some("100".to_string()),
        max_downloads: Some("2".to_string()),
        password: Some("pw".to_string()),
    };
    assert!(shares::update_share_at(&mut registry, "x", &all, 50).is_ok());
    let share = db::get_share(&registry, "x").unwrap();
    assert_eq!((share.expires_at, share.max_downloads), (Some(150), Some(2)));
    assert!(tempshare::auth::verify_password("pw", &share.password_hash.unwrap()));
    let open = UpdateShareRequest {
        expires: None,
        max_downloads: None,
        password: Some(String::new()),
    };
    assert!(shares::update_share(&mut registry, "x", &open).is_ok());
    let share = db::get_share(&registry, "x").unwrap();
    assert_eq!(share.password_hash, None);
    assert_eq!(share.expires_at, Some(150));
    assert!(matches!(
        shares::update_share(&mut registry, "y", &all),
        Err(AppError::NotFound)
    ));
    let bad = UpdateShareRequest {
        expires: None,
        max_downloads: Some("many".to_string()),
        password: None,
    };
    assert!(matches!(
        shares::update_share(&mut registry, "x", &bad),
        Err(AppError::BadRequest(_))
    ));
}

#[test]
fn deleting_touches_no_file_unasked() {
    let mut registry = with_share(&plain_share("a"));
    let mut folder = plain_share("b");
    folder.is_folder = true;
    let entry = ShareEntry {
        stored_name: "s".to_string(),
        display_name: "d".to_string(),
        size_bytes: 1,
    };
    db::insert_folder_share(&mut registry, &folder, &[entry]).unwrap();
    db::insert_share(&mut registry, &plain_share("c")).unwrap();
    let keep = DeleteQuery { delete_file: false };
    let remove = DeleteQuery { delete_file: true };
    assert!(matches!(shares::delete_share(&mut registry, "a", &keep), Ok(Removal::Nothing)));
    assert!(matches!(shares::delete_share(&mut registry, "b", &remove),
        Ok(Removal::Folder(p)) if p == "storage/b"));
    assert!(matches!(shares::delete_share(&mut registry, "c", &remove),
        Ok(Removal::File(p)) if p == "storage/c"));
    assert!(matches!(
        shares::delete_share(&mut registry, "a", &remove),
        Err(AppError::NotFound)
    ));
    assert!(db::list_share_entries(&registry, "b").is_empty());
    assert!(db::get_share(&registry, "b").is_none());
}

#[test]
fn broken_off_downloads_are_recorded_as_such() {
    let mut lost = Accounting::new("x".to_string(), RECIPIENT, 10);
    lost.note_at(StreamEvent::Sent(4), 1);
    let event = lost.note_at(StreamEvent::Dropped, 2).unwrap();
    assert_eq!((event.bytes_transferred, event.completed, event.timestamp), (4, false, 2));

    let mut failed = Accounting::new("x".to_string(), RECIPIENT, 10);
    assert!(!failed.note_at(StreamEvent::Failed, 1).unwrap().completed);
    assert!(failed.note_at(StreamEvent::Ended, 1).is_none());

    let mut short = Accounting::new("x".to_string(), RECIPIENT, 10);
    short.note_at(StreamEvent::Sent(9), 1);
    assert!(!short.note_at(StreamEvent::Ended, 1).unwrap().completed);

    let mut huge = Accounting::new("x".to_string(), RECIPIENT, u64::MAX);
    huge.note_at(StreamEvent::Sent(usize::MAX), 1);
    huge.note_at(StreamEvent::Sent(usize::MAX), 1);
    assert_eq!(huge.note_at(StreamEvent::Ended, 1).unwrap().bytes_transferred, i64::MAX);
}

#[test]
fn visit_is_counted_once() {
    let mut state = test_state();
    let mut registry = with_share(&plain_share("x"));
    page(share_page_at(&mut state, &registry, RECIPIENT, "x", "tok".to_string(), 5, TICK));
    let mut headers = request();
    headers.cookie = Some(b"tempshare_session=tok; tempshare_unlock=z".to_vec());
    for _ in 0..3 {
        assert!(claim_download_session_at(
            &mut state,
            &mut registry,
            "x",
            RECIPIENT,
            &headers,
            5,
            TICK
        ));
    }
    assert_eq!(db::get_share(&registry, "x").unwrap().download_count, 1);
    let share = db::get_share(&registry, "x").unwrap();
    assert!(download_at(
        &mut state,
        &mut registry,
        &share,
        SOMEBODY_ELSE,
        "x",
        &headers,
        10,
        5,
        TICK
    )
    .is_ok());
    assert_eq!(db::get_share(&registry, "x").unwrap().download_count, 2);
}

#[test]
fn errors_have_their_replies() {
    for (error, status, told, logged) in [
        (AppError::NotFound, 404, "not found", "not found"),
        (AppError::Forbidden, 403, "forbidden", "forbidden"),
        (AppError::PasswordRequired, 401, "password required", "password required"),
        (AppError::IncorrectPassword, 401, "incorrect password", "incorrect password"),
        (AppError::RateLimited, 429, "too many requests, slow down", "rate limited"),
        (AppError::BadRequest("x".to_string()), 400, "x", "bad request: x"),
        (AppError::Internal("x".to_string()), 500, "internal server error", "internal error"),
    ] {
        assert_eq!(error.to_text(), logged);
        let reply = error.into_response();
        assert_eq!((reply.status, reply.error.as_str()), (status, told));
    }
}

#[test]
fn tunnel_follows_its_program() {
    let mut state = test_state();
    let mut tunnel = Tunnel::new();
    let line = |text: &str| TunnelEvent::Line { line: text.to_string() };
    assert_eq!(tunnel.step(&mut state, TunnelEvent::Looked { present: true }), TunnelAction::Start);
    assert_eq!(state.tunnel_status(), "starting");
    for secs in [2, 4, 8, 16, 30, 30] {
        assert_eq!(
            tunnel.step(&mut state, TunnelEvent::NotStarted),
            TunnelAction::Wait { secs }
        );
        assert_eq!(state.tunnel_status(), "start_failed");
        assert_eq!(tunnel.step(&mut state, TunnelEvent::Waited), TunnelAction::Start);
    }
    assert_eq!(tunnel.step(&mut state, TunnelEvent::Started), TunnelAction::Read);
    assert_eq!(
        tunnel.step(&mut state, line("url=https://quiet-tree.trycloudflare.com")),
        TunnelAction::Read
    );
    assert_eq!(state.public_base_url(), "http://127.0.0.1:7421");
    assert_eq!(
        tunnel.step(&mut state, line("INF Registered tunnel connection")),
        TunnelAction::Settle { secs: 5 }
    );
    assert_eq!(state.public_base_url(), "http://127.0.0.1:7421");
    assert_eq!(tunnel.step(&mut state, TunnelEvent::Settled), TunnelAction::Read);
    assert_eq!(state.public_base_url(), "https://quiet-tree.trycloudflare.com");
    assert_eq!(state.tunnel_status(), "connected");
    assert_eq!(tunnel.step(&mut state, TunnelEvent::Ended), TunnelAction::Wait { secs: 2 });
    assert_eq!(state.tunnel_status(), "reconnecting");
    tunnel.step(&mut state, TunnelEvent::Waited);
    tunnel.step(&mut state, TunnelEvent::Started);
    assert_eq!(tunnel.step(&mut state, TunnelEvent::Ended), TunnelAction::Wait { secs: 4 });
    assert_eq!(state.tunnel_status(), "failed");
}

#[test]
fn tunnel_stops_without_program_or_log() {
    let mut state = test_state();
    let mut tunnel = Tunnel::new();
    assert_eq!(tunnel.step(&mut state, TunnelEvent::Looked { present: false }), TunnelAction::Stop);
    assert_eq!(state.tunnel_status(), "cloudflared_missing");
    assert_eq!(tunnel.step(&mut state, TunnelEvent::NoLog), TunnelAction::Stop);
    assert_eq!(state.tunnel_status(), "start_failed");
    let status = shares::server_status(&state);
    assert_eq!(status.tunnel_status, "start_failed");
    assert_eq!(status.public_base_url, "http://127.0.0.1:7421");
    assert!(!status.auto_tunnel);
}
