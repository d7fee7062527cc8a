use tempshare::db::{self, Registry, Share, ShareEntry};
use tempshare::download::{
    admit_download_at, load_active_share_at, settle_unlock, share_info_at, share_page_at,
    unlock_gate_at, unlock_share_at, UnlockRequest,
};
use tempshare::error::AppError;
use tempshare::headers::{cookie_value, RequestHeaders};
use tempshare::ids::generate_share_id;
use tempshare::net::IpAddr;
use tempshare::page::render_page;
use tempshare::routes::{management_router, public_router};
use tempshare::shares::{
    create_share_at, register_folder_share, register_share, FolderUpload, Upload,
};
use tempshare::state::{AppState, Config, EnvVars, NANOS_PER_SEC};

const HERE: IpAddr = IpAddr::V4(0xcb00_710a);
const THERE: IpAddr = IpAddr::V4(0xcb00_710b);
const TICK: u128 = 1_000_000_000_000;
const NOW: i64 = 1_000_000;

fn state() -> AppState {
    AppState::new(Config::from_env(EnvVars {
        storage_dir: None,
        db_path: None,
        bind_addr: None,
        public_bind_addr: None,
        public_base_url: None,
        auto_tunnel: None,
        max_upload_bytes: None,
        rate_limit_per_min: None,
        unlock_token_ttl_secs: None,
        bandwidth_bytes_per_sec: None,
    }))
}

fn request() -> RequestHeaders {
    RequestHeaders {
        host: None,
        origin: None,
        range: None,
        cookie: None,
        unlock_token: None,
        forwarded_ip: None,
    }
}

fn with_token(token: &str) -> RequestHeaders {
    let mut headers = request();
    headers.unlock_token = Some(token.as_bytes().to_vec());
    headers
}

fn share(id: &str) -> Share {
    Share {
        id: id.to_string(),
        display_name: "data.bin".to_string(),
        file_path: format!("storage/{id}"),
        size_bytes: 10,
        is_folder: false,
        created_at: NOW,
        expires_at: None,
        max_downloads: None,
        download_count: 0,
        password_hash: None,
        status: "active".to_string(),
    }
}

fn entry(name: &str) -> ShareEntry {
    ShareEntry {
        stored_name: name.to_string(),
        display_name: format!("docs/{name}"),
        size_bytes: 3,
    }
}

#[test]
fn dead_ids_look_alike() {
    let mut registry = Registry::new();
    let mut revoked = share("revoked");
    revoked.status = "revoked".to_string();
    let mut expired = share("expired");
    expired.expires_at = Some(NOW);
    let mut used_up = share("used-up");
    used_up.max_downloads = Some(2);
    used_up.download_count = 2;
    for s in [&revoked, &expired, &used_up] {
        db::insert_share(&mut registry, s).unwrap();
    }
    for id in ["revoked", "expired", "used-up", "never-issued"] {
        assert!(matches!(
            load_active_share_at(&registry, id, false, NOW),
            Err(AppError::NotFound)
        ));
        assert!(matches!(share_info_at(&registry, id, NOW), Err(AppError::NotFound)));
        let mut state = state();
        assert!(matches!(
            share_page_at(&mut state, &registry, HERE, id, "t".to_string(), NOW, TICK),
            Err(AppError::NotFound)
        ));
        assert!(matches!(
            admit_download_at(&mut state, &registry, HERE, id, &request(), NOW, TICK),
            Err(AppError::NotFound)
        ));
        assert!(matches!(
            unlock_gate_at(&state, &registry, HERE, id, NOW),
            Err(AppError::NotFound)
        ));
    }
    assert!(load_active_share_at(&registry, "used-up", true, NOW).is_ok());
}

#[test]
fn other_shares_are_left_alone() {
    let mut registry = Registry::new();
    db::insert_folder_share(&mut registry, &share("kept"), &[entry("a"), entry("b")]).unwrap();
    db::insert_folder_share(&mut registry, &share("gone"), &[entry("a")]).unwrap();
    let before = format!("{:?}", db::get_share(&registry, "kept").unwrap());
    assert!(db::claim_download(&mut registry, "gone", NOW));
    db::update_share_settings(&mut registry, "gone", Some(Some(1)), Some(Some(1)), None);
    assert!(db::revoke_share(&mut registry, "gone"));
    assert!(db::delete_share(&mut registry, "gone"));
    assert!(!db::delete_share(&mut registry, "gone"));
    assert_eq!(format!("{:?}", db::get_share(&registry, "kept").unwrap()), before);
    let names: Vec<String> =
        db::list_share_entries(&registry, "kept").into_iter().map(|e| e.stored_name).collect();
    assert_eq!(names, vec!["a", "b"]);
    assert!(db::list_share_entries(&registry, "gone").is_empty());
}

#[test]
fn expiry_sweep_changes_no_answer() {
    for swept in [0, 10, 20] {
        let mut registry = Registry::new();
        for (id, at) in [("a", Some(10)), ("b", Some(20)), ("c", None)] {
            let mut s = share(id);
            s.expires_at = at;
            db::insert_share(&mut registry, &s).unwrap();
        }
        let answers = |registry: &Registry, now| {
            ["a", "b", "c"].map(|id| load_active_share_at(registry, id, false, now).is_ok())
        };
        let before = answers(&registry, 20);
        db::delete_expired_shares(&mut registry, swept);
        assert_eq!(answers(&registry, 20), before);
    }
}

#[test]
fn token_opens_its_share_alone() {
    let mut state = state();
    let mut registry = Registry::new();
    for id in ["a", "b"] {
        let mut s = share(id);
        s.password_hash = Some("kept".to_string());
        db::insert_share(&mut registry, &s).unwrap();
    }
    for (id, token) in [("a", "token-a"), ("b", "token-b")] {
        let reply = settle_unlock(
            &mut state,
            &mut registry,
            HERE,
            id,
            true,
            token.to_string(),
            NOW,
            TICK,
        );
        assert!(reply.is_ok_and(|r| r.token.as_deref() == Some(token)));
    }
    let mut open = |token: &str, id: &str, ip, tick| {
        admit_download_at(&mut state, &registry, ip, id, &with_token(token), NOW, tick).is_ok()
    };
    assert!(open("token-a", "a", HERE, TICK));
    assert!(open("token-b", "b", HERE, TICK));
    assert!(!open("token-a", "b", HERE, TICK));
    assert!(!open("token-a", "a", THERE, TICK));
    assert!(!open("token-c", "a", HERE, TICK));
    assert!(open("token-a", "a", HERE, TICK + 900 * NANOS_PER_SEC - 1));
    assert!(!open("token-a", "a", HERE, TICK + 900 * NANOS_PER_SEC));
}

#[test]
fn sweeping_tokens_is_not_noticed() {
    let mut registry = Registry::new();
    let mut s = share("a");
    s.password_hash = Some("kept".to_string());
    db::insert_share(&mut registry, &s).unwrap();
    let mut state = state();
    let later = TICK + 500 * NANOS_PER_SEC;
    for (token, tick) in [("old", TICK), ("new", later)] {
        assert!(settle_unlock(
            &mut state,
            &mut registry,
            HERE,
            "a",
            true,
            token.to_string(),
            NOW,
            tick
        )
        .is_ok());
    }
    state.sweep_unlock_tokens(TICK + 900 * NANOS_PER_SEC);
    assert_eq!(state.unlock_tokens.len(), 1);
    let tick = TICK + 1000 * NANOS_PER_SEC;
    assert!(admit_download_at(&mut state, &registry, HERE, "a", &with_token("new"), NOW, tick).is_ok());
    assert!(admit_download_at(&mut state, &registry, HERE, "a", &with_token("old"), NOW, tick).is_err());
}

#[test]
fn wrong_guess_is_recorded_and_gives_nothing_out() {
    let mut state = state();
    let mut registry = Registry::new();
    let mut s = share("a");
    s.password_hash = Some("kept".to_string());
    db::insert_share(&mut registry, &s).unwrap();
    assert!(matches!(unlock_gate_at(&state, &registry, HERE, "a", NOW), Ok(Some(h)) if h == "kept"));
    for i in 0..5 {
        let refused = settle_unlock(
            &mut state,
            &mut registry,
            HERE,
            "a",
            false,
            "t".to_string(),
            NOW + i,
            TICK,
        );
        assert!(matches!(refused, Err(AppError::IncorrectPassword)));
    }
    assert_eq!(state.unlock_tokens.len(), 0);
    assert_eq!(db::failed_auths(&registry).len(), 5);
    assert_eq!(db::failed_auths(&registry)[4].timestamp, NOW + 4);
    assert!(matches!(
        unlock_gate_at(&state, &registry, HERE, "a", NOW + 300),
        Err(AppError::RateLimited)
    ));
    assert!(unlock_gate_at(&state, &registry, HERE, "a", NOW + 301).is_ok());
    assert!(unlock_gate_at(&state, &registry, THERE, "a", NOW + 5).is_ok());
}

#[test]
fn cookies_given_out_are_found() {
    let mut headers = request();
    headers.cookie = Some(b"tempshare_session=abc; tempshare_unlock=xyz".to_vec());
    assert_eq!(cookie_value(&headers, "tempshare_session").as_deref(), Some("abc"));
    assert_eq!(cookie_value(&headers, "tempshare_unlock").as_deref(), Some("xyz"));
}

#[test]
fn management_has_all_public_routes() {
    let all = management_router(0);
    for p in public_router() {
        assert!(all
            .iter()
            .any(|m| m.method == p.method && m.path == p.path && m.action == p.action));
    }
}

#[test]
fn share_id_is_plain_in_the_script() {
    let id = generate_share_id();
    let html = render_page(&id, "x", 1, false).unwrap();
    assert!(html.contains(&format!("<script>const id=\"{id}\";const protectedShare=false;")));
}

#[test]
fn created_share_can_be_had_with_its_password() {
    let mut state = state();
    let mut registry = Registry::new();
    let mut upload = Upload::new("id".to_string());
    let field = upload.start_field("password", None).unwrap();
    upload.take_text(field, b" secret ");
    let field = upload.start_field("max_downloads", None).unwrap();
    upload.take_text(field, b"1");
    upload.start_field("file", Some("a/b.txt")).unwrap();
    upload.take_chunk(7, 100).unwrap();
    upload.end_file();
    assert!(create_share_at(&state, &mut registry, &upload, "storage/id", NOW).is_ok());
    let made = load_active_share_at(&registry, "id", false, NOW).unwrap();
    assert_eq!(made.display_name, "a_b.txt");
    assert_eq!(made.size_bytes, 7);
    assert_eq!(made.created_at, NOW);
    assert_eq!(made.max_downloads, Some(1));
    let body = UnlockRequest { password: "secret".to_string() };
    assert!(unlock_share_at(
        &mut state,
        &mut registry,
        HERE,
        "id",
        &body,
        "t".to_string(),
        NOW,
        TICK
    )
    .is_ok());
    assert!(db::claim_download(&mut registry, "id", NOW));
    assert!(!db::claim_download(&mut registry, "id", NOW));
}

#[test]
fn registered_shares_are_as_they_were_given() {
    let state = state();
    let mut registry = Registry::new();
    let upload = Upload::new("file".to_string());
    let reply = register_share(
        &state,
        &mut registry,
        &upload,
        "storage/file",
        (Some(5), Some(6)),
        Some("hash".to_string()),
        4,
    );
    assert!(reply.is_ok_and(|r| r.download_url == "/download/file"
        && r.public_download_url == "http://127.0.0.1:7421/s/file"));
    let made = db::get_share(&registry, "file").unwrap();
    assert_eq!(made.display_name, "download.bin");
    assert_eq!(
        (made.expires_at, made.max_downloads, made.created_at, made.download_count),
        (Some(5), Some(6), 4, 0)
    );
    assert_eq!(made.password_hash.as_deref(), Some("hash"));
    assert_eq!(made.status, "active");

    let mut folder = FolderUpload::new("folder".to_string());
    for (name, size) in [("x", 2usize), ("y", 3)] {
        folder.start_field_as("file", Some(name), format!("stored-{name}"));
        folder.take_chunk(size, 100).unwrap();
        folder.end_file();
    }
    assert!(register_folder_share(
        &state,
        &mut registry,
        &folder,
        "storage/folder",
        (None, None),
        None,
        4
    )
    .is_ok());
    let made = db::get_share(&registry, "folder").unwrap();
    let entries = db::list_share_entries(&registry, "folder");
    assert_eq!(made.size_bytes, entries.iter().map(|e| e.size_bytes).sum::<i64>());
    assert_eq!(entries.len(), 2);
    assert_eq!(entries[1].stored_name, "stored-y");
}
