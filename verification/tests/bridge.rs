use std::path::PathBuf;

use sc_rns_bridge::config::{BridgeConfig, BridgeRole, ClientArgs, Role, ServerArgs};
use sc_rns_bridge::controller::{
    bridge_role_label, browser_source, find_interface_by_hex, first_new_interface, interface_kind,
    parse_host_port, resume_error,
    parse_role, tcp_interface_mode, validate_hex_hash, websocket_interface_mode, AddrError,
    ConnectError, ControllerCore, HashError, InterfaceDescriptor, InterfaceKind, InterfaceMode,
    ResumeStep, Settings,
};
use sc_rns_bridge::ds::{
    default_install_dir, ds_background_step, ds_start_check, fixed_mapcycle, svends_launch_args,
    DsAction, DsEvent, DsStartError, install_dir_for, list_maps, map_name_of,
    soundcache_targets, steam_install_candidates, svends_candidates, svends_exe_name,
    svends_path_marker, DsPhase, DsStartArgs,
};
use sc_rns_bridge::framing::{frame, Reassembler, FLAG_FINAL, MAX_CHUNK, MAX_DATAGRAM};
use sc_rns_bridge::game::{GameLauncher, SC_GAME_APPID};
use sc_rns_bridge::hexcodec::{decode_trimmed, HexError};
use sc_rns_bridge::portable::{portable_candidate, PORTABLE_DIR_NAME};
use sc_rns_bridge::relay::{
    announce_app_data, announced_name, parse_destination_hash, DEFAULT_ANNOUNCE_NAME, path_probe_step, plan_interfaces, server_inbound_step, tcp_plan,
    BridgeEvent, ClientAction, ClientRouter, DiscoveredServer, Hash16, InboundStep, LinkSetup,
    PacketAction, PeerAddr, ProbeStep, ServerAction, ServerHashError, ServerRouter, TcpPlan,
    PATH_PROBE_ATTEMPTS,
};
use sc_rns_bridge::server_entry::{entries_from, ServerEntry};
use sc_rns_bridge::steamcmd::{
    archive_kind, byte_unit, console_lines, download_urls, needs_32bit_libs, scan_progress,
    steamcmd_archive, steamcmd_pull_args, strip_ansi, ArchiveKind, Os, SteamcmdRunner,
    LINUX_32BIT_PACKAGES, STEAMCDN_FALLBACK, STEAMCDN_PRIMARY,
};
use sc_rns_bridge::web::{
    api_command, default_announce, default_ds_map, default_ds_maxplayers, default_ds_port,
    default_sc_host, ApiCommand,
};

fn hash(b: u8) -> Hash16 {
    Hash16 { bytes: [b; 16] }
}

fn names(list: &[&str]) -> Vec<String> {
    list.iter().map(|s| s.to_string()).collect()
}

fn server_args() -> ServerArgs {
    ServerArgs {
        sc_port: 27015,
        sc_host: "127.0.0.1".to_string(),
        identity: PathBuf::from("/bundle/server.identity"),
        tcp: Some("0.0.0.0:4234".to_string()),
        auto: false,
        announce_interval: 15,
        name: Some("my server".to_string()),
    }
}

fn client_args() -> ClientArgs {
    ClientArgs {
        listen_port: 27016,
        server_hash: None,
        identity: PathBuf::from("/bundle/client.identity"),
        tcp: Some("example.com:4234".to_string()),
        auto: true,
    }
}

// ---- game launcher ----

#[test]
fn uri_has_appid_and_connect() {
    let uri = GameLauncher::connect_uri(27016);
    assert!(uri.contains("steam://run/225840//"));
    assert!(uri.contains("+connect%20127.0.0.1:27016"));
}

#[test]
fn appid_is_game_not_ds() {
    assert_eq!(SC_GAME_APPID, 225840, "game appid, not DS 276060");
}

#[test]
fn connect_uri_connects_to_listen_port() {
    assert!(GameLauncher::connect_uri(27016).contains(":27016"));
}

#[test]
fn connect_uri_is_exact() {
    assert_eq!(GameLauncher::connect_uri(27015), "steam://run/225840//+connect%20127.0.0.1:27015");
    assert_eq!(GameLauncher::connect_uri(0), "steam://run/225840//+connect%20127.0.0.1:0");
}

#[test]
fn launch_command_per_os() {
    let cmd = GameLauncher::launch_command("linux", 27016).unwrap();
    assert_eq!(cmd.program, "xdg-open");
    assert_eq!(cmd.args, vec!["steam://run/225840//+connect%20127.0.0.1:27016".to_string()]);
    let cmd = GameLauncher::launch_command("macos", 27016).unwrap();
    assert_eq!(cmd.program, "open");
    match GameLauncher::launch_command("plan9", 27016) {
        Err(msg) => assert_eq!(msg, "no URI handler for OS plan9"),
        Ok(_) => panic!("plan9 has no URI handler"),
    }
}

// ---- steamcmd ----

#[test]
fn archive_name_per_os() {
    assert_eq!(steamcmd_archive(Os::Linux), Some("steamcmd_linux.tar.gz"));
    assert_eq!(steamcmd_archive(Os::Windows), Some("steamcmd.zip"));
    assert_eq!(steamcmd_archive(Os::Macos), Some("steamcmd_osx.tar.gz"));
    assert_eq!(steamcmd_archive(Os::Other), None);
}

#[test]
fn os_detect_matches_consts() {
    assert_eq!(Os::detect("linux"), Os::Linux);
    assert_eq!(Os::detect("windows"), Os::Windows);
    assert_eq!(Os::detect("macos"), Os::Macos);
    assert_eq!(Os::detect("freebsd"), Os::Other);
    assert_eq!(Os::detect("Linux"), Os::Other);
    let os = Os::detect("linux");
    assert_eq!(os, Os::detect("linux"));
}

#[test]
fn only_linux_windows_have_ds() {
    assert!(Os::Linux.supports_dedicated_server());
    assert!(Os::Windows.supports_dedicated_server());
    assert!(!Os::Macos.supports_dedicated_server());
    assert!(!Os::Other.supports_dedicated_server());
}

#[test]
fn steamcmd_path_is_bundle_relative() {
    let r = SteamcmdRunner::with_os(PathBuf::from("/bundle"), Os::Linux);
    assert_eq!(r.steamcmd_path(), PathBuf::from("/bundle/steamcmd/steamcmd.sh"));
    let r = SteamcmdRunner::with_os(PathBuf::from("/bundle"), Os::Windows);
    assert_eq!(r.steamcmd_path(), PathBuf::from("/bundle/steamcmd/steamcmd.exe"));
}

#[test]
fn steamcmd_runner_keeps_its_os() {
    let r = SteamcmdRunner::new(PathBuf::from("/bundle"), "windows");
    assert_eq!(r.os(), Os::Windows);
    assert_eq!(r.steamcmd_dir(), PathBuf::from("/bundle/steamcmd"));
    let r = SteamcmdRunner::new(PathBuf::from("/b"), "macos");
    assert_eq!(r.steamcmd_path(), PathBuf::from("/b/steamcmd/steamcmd.sh"));
}

#[test]
fn strip_ansi_removes_colour_codes() {
    assert_eq!(strip_ansi("hello"), "hello");
    assert_eq!(strip_ansi("\x1b[0m"), "");
    assert_eq!(strip_ansi("\x1b[0mWaiting for user info...\x1b[0m"), "Waiting for user info...");
    assert_eq!(strip_ansi("\x1b[32mOK\x1b[0m \x1b[1mdone\x1b[0m"), "OK done");
}

#[test]
fn strip_ansi_edge_cases() {
    // A bare escape drops the one character after it.
    assert_eq!(strip_ansi("a\x1bXb"), "ab");
    // An unterminated control sequence swallows the rest of the line.
    assert_eq!(strip_ansi("ok\x1b[12;3"), "ok");
    // A trailing escape is dropped.
    assert_eq!(strip_ansi("end\x1b"), "end");
    assert_eq!(strip_ansi(""), "");
}

#[test]
fn strip_ansi_is_idempotent_on_examples() {
    for s in ["\x1b[32mOK\x1b[0m", "a\x1b\x1b[0mb", "plain", "\x1b[1;2mx\x1by"] {
        let once = strip_ansi(s);
        assert!(!once.contains('\x1b'));
        assert_eq!(strip_ansi(&once), once);
    }
}

#[test]
fn scan_progress_handles_ansi_and_empty() {
    let line = "Update state (0x61) downloading, progress: 92.78 (2540760050 / 2738389637)";
    let p = scan_progress(line).expect("should parse");
    assert_eq!(p.pct_text, "92.78");
    assert_eq!(p.state.as_deref(), Some("downloading"));
    assert_eq!(p.cur_bytes, Some(2540760050));
    assert_eq!(p.total_bytes, Some(2738389637));
    let line = "\x1b[0mUpdate state (0x61) downloading, progress: 50.00 (100 / 200)\x1b[0m";
    let p = scan_progress(line).expect("should parse ANSI");
    assert_eq!(p.pct_text, "50.00");
    assert_eq!(p.cur_bytes, Some(100));
    assert_eq!(p.total_bytes, Some(200));
    assert!(scan_progress("Logging in user 'anonymous'…").is_none());
    assert!(scan_progress("").is_none());
}

#[test]
fn scan_progress_byte_counts_are_optional() {
    let p = scan_progress("progress: 50.00").unwrap();
    assert_eq!(p.pct_text, "50.00");
    assert_eq!((p.cur_bytes, p.total_bytes), (None, None));
    assert_eq!(p.state, None);
    let p = scan_progress("progress: 12.5 (x / 3)").unwrap();
    assert_eq!(p.pct_text, "12.5");
    assert_eq!((p.cur_bytes, p.total_bytes), (None, None));
    let p = scan_progress("progress: 12.5 (1 3)").unwrap();
    assert_eq!((p.cur_bytes, p.total_bytes), (None, None));
    let p = scan_progress("progress:   7 ( +1 / 3 )").unwrap();
    assert_eq!(p.pct_text, "7");
    assert_eq!((p.cur_bytes, p.total_bytes), (Some(1), Some(3)));
    assert_eq!(p.state, None);
    let p = scan_progress("Update state (0x5) verifying install,,, progress: 1.0 (1 / 2)").unwrap();
    assert_eq!(p.state.as_deref(), Some("verifying install"));
    let p = scan_progress("Update state (0x5) progress: 1.0").unwrap();
    assert_eq!(p.state, None);
    assert_eq!(p.cur_bytes, None);
}

#[test]
fn byte_unit_picks_largest_unit() {
    assert_eq!(byte_unit(999), None);
    assert_eq!(byte_unit(1000), Some(("KB", 1000)));
    assert_eq!(byte_unit(2_540_760_050), Some(("GB", 1_000_000_000)));
    assert_eq!(byte_unit(1_000_000), Some(("MB", 1_000_000)));
    assert_eq!(byte_unit(u64::MAX), Some(("TB", 1_000_000_000_000)));
}

// ---- dedicated server ----

#[test]
fn default_install_dir_is_bundle_relative() {
    let bundle = PathBuf::from("/bundle");
    assert_eq!(default_install_dir(&bundle), PathBuf::from("/bundle/svends"));
    assert_eq!(svends_path_marker(&bundle), PathBuf::from("/bundle/.svends_path"));
}

#[test]
fn ds_status_reports_phase() {
    let phase = DsPhase::default();
    let (running, observed) = phase.observed(false);
    assert_eq!(observed, DsPhase::Idle);
    assert!(!running);
}

#[test]
fn dead_ds_reads_as_idle() {
    assert_eq!(DsPhase::Running.observed(false), (false, DsPhase::Idle));
    assert_eq!(DsPhase::Running.observed(true), (true, DsPhase::Running));
    assert_eq!(DsPhase::Pulling.observed(true), (false, DsPhase::Pulling));
    assert!(DsPhase::Starting.is_active());
    assert!(!DsPhase::Error.is_active());
    assert_eq!(DsPhase::Pulling.label(), "pulling");
}

#[test]
fn ds_start_args_defaults() {
    let a = DsStartArgs::default();
    assert_eq!(a.port, 27015);
    assert_eq!(a.maxplayers, 8);
    assert_eq!(a.map, "svencoop1");
    assert!(a.install_dir.is_none());
    assert!(!a.sv_cheats);
    assert_eq!(install_dir_for(&a, &PathBuf::from("/b")), PathBuf::from("/b/svends"));
    let b = DsStartArgs { install_dir: Some(PathBuf::from("/opt/sc")), ..a.clone() };
    assert_eq!(install_dir_for(&b, &PathBuf::from("/b")), PathBuf::from("/opt/sc"));
}

#[test]
fn map_names_follow_bsp_extension() {
    assert_eq!(map_name_of("svencoop1.bsp").as_deref(), Some("svencoop1"));
    assert_eq!(map_name_of("a.b.bsp").as_deref(), Some("a.b"));
    assert_eq!(map_name_of(".bsp"), None);
    assert_eq!(map_name_of("..bsp").as_deref(), Some("."));
    assert_eq!(map_name_of("x.BSP"), None);
    assert_eq!(map_name_of("readme.txt"), None);
    assert_eq!(map_name_of("bsp"), None);
}

#[test]
fn list_maps_sorted_and_unique() {
    let found = names(&["stadium.bsp", "crystal.bsp", "notes.txt", "crystal.bsp", "Abandoned.bsp"]);
    assert_eq!(list_maps(&found), names(&["Abandoned", "crystal", "stadium"]));
    assert!(list_maps(&Vec::new()).is_empty());
}

#[test]
fn precreate_soundcache_creates_one_per_bsp() {
    let entries = names(&["a.bsp", "b.bsp", "soundcache", "a.res"]);
    assert_eq!(soundcache_targets(&entries), names(&["a.txt", "b.txt"]));
}

#[test]
fn fix_mapcycle_default_strips_portal_and_promotes_svencoop1() {
    let fixed = fixed_mapcycle("-sp_campaign_portal\nabandoned\nsvencoop1\ncrystal\n").unwrap();
    assert_eq!(fixed, "svencoop1\nabandoned\ncrystal\n");
    assert!(fixed_mapcycle(&fixed).is_none());
}

#[test]
fn fix_mapcycle_default_leaves_custom_cycle_alone() {
    assert!(fixed_mapcycle("crystal\nabandoned\n").is_none());
}

#[test]
fn fix_mapcycle_moves_svencoop1_to_front() {
    let fixed = fixed_mapcycle("a\r\n  sp_campaign_portal  \r\nb\nsvencoop1\nc").unwrap();
    assert_eq!(fixed, "svencoop1\na\nb\nc\n");
    let fixed = fixed_mapcycle("sp_campaign_portal").unwrap();
    assert_eq!(fixed, "\n");
}

#[test]
fn find_locates_bundle_local_svends() {
    let bundle = PathBuf::from("/bundle");
    let c = svends_candidates(&bundle, Os::Linux, None, &Vec::new());
    assert_eq!(c, vec![(PathBuf::from("/bundle/svends/svends_run"), PathBuf::from("/bundle/svends"))]);
}

#[test]
fn svends_candidates_in_order() {
    let bundle = PathBuf::from("/bundle");
    let steam = vec![PathBuf::from("/home/u/.steam/steam")];
    let c = svends_candidates(&bundle, Os::Windows, Some("  /srv/sc \n".to_string()), &steam);
    assert_eq!(c.len(), 3);
    assert_eq!(c[0].0, PathBuf::from("/bundle/svends/svends.exe"));
    assert_eq!(c[1], (PathBuf::from("/srv/sc/svends.exe"), PathBuf::from("/srv/sc")));
    assert_eq!(
        c[2].1,
        PathBuf::from("/home/u/.steam/steam/steamapps/common/Sven Co-op")
    );
    let c = svends_candidates(&bundle, Os::Linux, Some("   ".to_string()), &Vec::new());
    assert_eq!(c.len(), 1);
    assert_eq!(svends_exe_name(Os::Macos), "svends_run");
}

#[test]
fn steam_install_candidates_per_os() {
    let home = Some(PathBuf::from("/home/u"));
    let c = steam_install_candidates(Os::Linux, None, None, None, home.clone());
    assert_eq!(
        c,
        vec![
            PathBuf::from("/home/u/.local/share/Steam"),
            PathBuf::from("/home/u/.steam/steam"),
            PathBuf::from("/home/u/.var/app/com.valvesoftware.Steam/data/Steam"),
        ]
    );
    assert!(steam_install_candidates(Os::Macos, None, None, None, None).is_empty());
    let c = steam_install_candidates(
        Os::Windows,
        Some("X".to_string()),
        Some(String::new()),
        None,
        home,
    );
    assert_eq!(c.len(), 3);
    assert_eq!(c[0], PathBuf::from("X").join("Steam"));
    assert_eq!(c[1], PathBuf::from("C:\\Program Files (x86)\\Steam"));
}

// ---- portable data folder ----

#[test]
fn portable_dir_name_is_stable() {
    assert_eq!(PORTABLE_DIR_NAME, "sc-rns-data");
}

#[test]
fn portable_candidate_is_exe_sibling() {
    let exe = PathBuf::from("/opt/app/sc-rns-gui");
    let c = portable_candidate(Some(exe.clone()), None).unwrap();
    assert_eq!(c.file_name().unwrap(), PORTABLE_DIR_NAME);
    assert_eq!(c.parent().unwrap(), exe.parent().unwrap());
    let c = portable_candidate(Some(exe.clone()), Some("/home/u/Apps/sc.AppImage".to_string()));
    assert_eq!(c, Some(PathBuf::from("/home/u/Apps/sc-rns-data")));
    let c = portable_candidate(Some(exe.clone()), Some(String::new()));
    assert_eq!(c, Some(PathBuf::from("/opt/app/sc-rns-data")));
    assert_eq!(portable_candidate(None, None), None);
}

// ---- web panel ----

#[test]
fn web_defaults() {
    assert_eq!(default_ds_port(), 27015);
    assert_eq!(default_ds_maxplayers(), 8);
    assert_eq!(default_ds_map(), "svencoop1");
    assert_eq!(default_sc_host(), "127.0.0.1");
    assert_eq!(default_announce(), 15);
}

#[test]
fn api_command_names() {
    assert_eq!(api_command("state"), Some(ApiCommand::State));
    assert_eq!(api_command("get_state"), Some(ApiCommand::State));
    assert_eq!(api_command("ds_start"), Some(ApiCommand::DsStart));
    assert_eq!(api_command("connect_and_launch"), Some(ApiCommand::ConnectAndLaunch));
    assert_eq!(api_command("add_interface_udp"), None);
    assert_eq!(api_command("DS_START"), None);
}

// ---- controller ----

#[test]
fn parse_host_port_splits() {
    let (h, p) = parse_host_port("0.0.0.0:4234").unwrap();
    assert_eq!(h, "0.0.0.0");
    assert_eq!(p, 4234);
    let (h, p) = parse_host_port("example.com:4234").unwrap();
    assert_eq!(h, "example.com");
    assert_eq!(p, 4234);
    assert!(parse_host_port("noport").is_err());
    assert!(parse_host_port("host:abc").is_err());
}

#[test]
fn parse_host_port_errors() {
    assert_eq!(parse_host_port("noport"), Err(AddrError::NoPort));
    assert_eq!(parse_host_port("host:abc"), Err(AddrError::NonNumericPort));
    assert_eq!(parse_host_port("host:65536"), Err(AddrError::NonNumericPort));
    assert_eq!(parse_host_port("[::1]:80"), Ok(("[::1]".to_string(), 80)));
    assert_eq!(parse_host_port(":+7"), Ok((String::new(), 7)));
}

#[test]
fn validate_hex_hash_accepts_32_hex() {
    assert!(validate_hex_hash("ffffffffffffffffffffffffffffffff").is_ok());
    assert!(validate_hex_hash("deadbeef").is_err());
    assert!(validate_hex_hash("zzffffffffffffffffffffffffffffff").is_err());
}

#[test]
fn validate_hex_hash_errors() {
    assert_eq!(validate_hex_hash("deadbeef"), Err(HashError::WrongLength { bytes: 4 }));
    assert_eq!(
        validate_hex_hash("zzffffffffffffffffffffffffffffff"),
        Err(HashError::InvalidHex(HexError::InvalidHexCharacter { c: 'z', index: 0 }))
    );
    assert_eq!(validate_hex_hash("abc"), Err(HashError::InvalidHex(HexError::OddLength)));
    assert!(validate_hex_hash("  FFFFFFFFFFFFFFFFFFFFFFFFFFFFFFFF\n").is_ok());
}

#[test]
fn interface_modes() {
    assert_eq!(tcp_interface_mode("0.0.0.0:4234"), Ok(InterfaceMode::BindServer));
    assert_eq!(tcp_interface_mode(":4234"), Ok(InterfaceMode::BindServer));
    assert_eq!(tcp_interface_mode("example.com:4234"), Ok(InterfaceMode::ConnectClient));
    assert_eq!(tcp_interface_mode("example.com:0"), Err(AddrError::ZeroPort));
    assert_eq!(websocket_interface_mode("wss://relay.example/ws"), Ok(InterfaceMode::ConnectClient));
    assert_eq!(websocket_interface_mode("0.0.0.0:8080"), Ok(InterfaceMode::BindServer));
    assert_eq!(websocket_interface_mode("0.0.0.0:0"), Err(AddrError::ZeroPort));
    assert_eq!(websocket_interface_mode("relay"), Err(AddrError::NoPort));
    assert_eq!(interface_kind("udp"), Some(InterfaceKind::Udp));
    assert_eq!(interface_kind("serial"), None);
}

#[test]
fn roles_and_labels() {
    assert_eq!(parse_role("server"), Some(BridgeRole::Server));
    assert_eq!(parse_role("client"), Some(BridgeRole::Client));
    assert_eq!(parse_role("both"), None);
    assert_eq!(bridge_role_label(true, true), Some("Server + Client"));
    assert_eq!(bridge_role_label(false, true), Some("Client"));
    assert_eq!(bridge_role_label(false, false), None);
    assert_eq!(browser_source(true, true), Some(BridgeRole::Client));
    assert_eq!(browser_source(true, false), Some(BridgeRole::Server));
    let cfg = BridgeConfig::from_role(Role::Client(client_args()));
    assert_eq!(cfg.role(), BridgeRole::Client);
}

#[test]
fn find_interface_ignores_case() {
    let ids = vec![vec![0xabu8, 0x01], vec![0xde, 0xad]];
    assert_eq!(find_interface_by_hex(&ids, "DEAD"), Some(1));
    assert_eq!(find_interface_by_hex(&ids, "ab01"), Some(0));
    assert_eq!(find_interface_by_hex(&ids, "beef"), None);
}

fn descriptor(id: &str, kind: &str) -> InterfaceDescriptor {
    InterfaceDescriptor {
        id: Some(id.to_string()),
        kind: kind.to_string(),
        role: "server".to_string(),
        addr: None,
        peer_addr: None,
        ifac_name: None,
        ifac_passphrase: None,
    }
}

#[test]
fn forgotten_interface_is_not_resumed_example() {
    let mut s = Settings::new();
    assert_eq!(s.version, Settings::VERSION);
    s.interfaces.push(descriptor("AB01", "tcp"));
    s.interfaces.push(descriptor("dead", "auto"));
    s.forget_interface("ab01");
    assert_eq!(s.interfaces.len(), 1);
    assert_eq!(s.interfaces[0].id.as_deref(), Some("dead"));
    assert_eq!(s.interfaces[0].addr_or_kind(), "auto");
}

#[test]
fn restart_and_resume_replay_last_start() {
    let mut core = ControllerCore::new(None);
    assert!(!core.is_running());
    assert!(core.restart_server_args().is_none());
    core.server_started(server_args());
    core.client_started(client_args());
    core.interface_added(descriptor("ab01", "tcp"));
    core.ds_started(DsStartArgs::default());
    core.server_stopped();
    assert_eq!(core.restart_server_args().unwrap().sc_host, "127.0.0.1");
    let plan = core.resume_plan();
    assert_eq!(plan.len(), 3);
    assert!(matches!(plan[0], ResumeStep::StartClient(_)));
    assert!(matches!(plan[1], ResumeStep::AttachInterface(_)));
    assert!(matches!(plan[2], ResumeStep::StartDs(_)));
    core.ds_stopped();
    core.client_stopped();
    assert!(core.resume_plan().len() == 1);
}

#[test]
fn connect_args_point_client_at_server() {
    let mut core = ControllerCore::new(None);
    let hex = "00112233445566778899aabbccddeeff".to_string();
    assert!(matches!(core.connect_args(hex.clone()), Err(ConnectError::NoClientYet)));
    core.client_started(client_args());
    let a = core.connect_args(hex.clone()).unwrap();
    assert_eq!(a.server_hash.as_deref(), Some(hex.as_str()));
    assert_eq!(a.listen_port, 27016);
    assert!(matches!(
        core.connect_args("beef".to_string()),
        Err(ConnectError::BadHash(HashError::WrongLength { bytes: 2 }))
    ));
}

// ---- hashes and the server browser ----

#[test]
fn destination_hash_parsing() {
    let h = parse_destination_hash(" 00112233445566778899aabbccddeeff ").unwrap();
    assert_eq!(h.bytes[1], 0x11);
    assert!(matches!(parse_destination_hash("0011"), Err(ServerHashError::WrongLength)));
    assert!(matches!(
        parse_destination_hash("xyz"),
        Err(ServerHashError::InvalidHex(HexError::OddLength))
    ));
    assert_eq!(decode_trimmed(" 0aFf ").unwrap(), vec![0x0a, 0xff]);
}

#[test]
fn browser_row_hash_round_trips() {
    let d = DiscoveredServer { destination_hash: hash(0xa5), last_seen: 1_000, name: Some("x".to_string()) };
    let e = ServerEntry::from_discovered(&d, 4_999);
    assert_eq!(e.destination_hash, "a5".repeat(16));
    assert_eq!(e.last_seen_ago_secs, 3);
    assert_eq!(e.name.as_deref(), Some("x"));
    let back = parse_destination_hash(&e.destination_hash).unwrap();
    assert_eq!(back.bytes, d.destination_hash.bytes);
    let e = ServerEntry::from_discovered(&d, 10);
    assert_eq!(e.last_seen_ago_secs, 0);
    let rows = entries_from(&vec![d.clone(), d], 2_000);
    assert_eq!(rows.len(), 2);
}

// ---- framing ----

#[test]
fn frame_then_reassemble_round_trips() {
    for len in [0usize, 1, MAX_CHUNK, MAX_CHUNK + 1, 3 * MAX_CHUNK + 7] {
        let datagram: Vec<u8> = (0..len).map(|i| (i % 251) as u8).collect();
        let chunks = frame(&datagram);
        assert_eq!(chunks.len(), if len == 0 { 1 } else { (len + MAX_CHUNK - 1) / MAX_CHUNK });
        let mut r = Reassembler::default();
        let mut out = None;
        for (i, c) in chunks.iter().enumerate() {
            assert!(c.len() <= MAX_CHUNK + 1);
            let last = i + 1 == chunks.len();
            assert_eq!(c[0], if last { FLAG_FINAL } else { 0 });
            out = r.push(c);
            assert_eq!(out.is_some(), last);
        }
        assert_eq!(out.unwrap(), datagram);
    }
}

#[test]
fn reassembler_drops_oversized_and_ignores_empty() {
    let mut r = Reassembler::default();
    assert_eq!(r.push(&[]), None);
    let big = vec![0u8; MAX_DATAGRAM + 1];
    let mut out = None;
    for c in frame(&big) {
        out = r.push(&c);
    }
    assert_eq!(out, None);
    assert_eq!(r.push(&[FLAG_FINAL, 9]), Some(vec![9]));
    r.push(&[0, 1, 2]);
    r.reset();
    assert_eq!(r.push(&[FLAG_FINAL]), Some(vec![]));
}

#[test]
fn server_inbound_steps() {
    let mut r = Reassembler::default();
    assert!(matches!(server_inbound_step(&mut r, &[]), InboundStep::End));
    assert!(matches!(server_inbound_step(&mut r, &[0, 5]), InboundStep::Wait));
    match server_inbound_step(&mut r, &[FLAG_FINAL, 6]) {
        InboundStep::Deliver(d) => assert_eq!(d, vec![5, 6]),
        _ => panic!("expected a datagram"),
    }
}

// ---- routers ----

#[test]
fn server_router_one_relay_per_link() {
    let mut r = ServerRouter::new();
    let link = hash(1);
    assert!(matches!(r.route(BridgeEvent::LinkEstablished { link_id: link }, 0), ServerAction::StartRelay { .. }));
    assert!(matches!(r.route(BridgeEvent::LinkEstablished { link_id: link }, 0), ServerAction::Nothing));
    match r.route(BridgeEvent::LinkData { link_id: link, bytes: vec![1, 2] }, 0) {
        ServerAction::Forward { bytes, .. } => assert_eq!(bytes, vec![1, 2]),
        _ => panic!("expected forward"),
    }
    assert!(matches!(r.route(BridgeEvent::LinkClosed { link_id: link }, 0), ServerAction::EndRelay { .. }));
    assert!(matches!(
        r.route(BridgeEvent::LinkData { link_id: link, bytes: vec![3] }, 0),
        ServerAction::DropUnknown { .. }
    ));
    r.route(BridgeEvent::AnnounceHeard { destination: hash(9), name: None }, 5);
    r.route(BridgeEvent::AnnounceHeard { destination: hash(9), name: None }, 8);
    assert_eq!(r.discovered().len(), 1);
    assert_eq!(r.discovered()[0].last_seen, 8);
}

#[test]
fn client_router_targets_first_announce() {
    let mut r = ClientRouter::new(None);
    let peer = PeerAddr { ip: [0; 16], port: 5000 };
    assert!(matches!(r.on_packet(&peer), PacketAction::NoServerYet));
    match r.route(BridgeEvent::AnnounceHeard { destination: hash(7), name: Some("a".to_string()) }, 1) {
        ClientAction::TargetDiscovered { destination } => assert_eq!(destination.bytes, [7; 16]),
        _ => panic!("expected a target"),
    }
    assert!(matches!(
        r.route(BridgeEvent::AnnounceHeard { destination: hash(8), name: None }, 2),
        ClientAction::Nothing
    ));
    assert_eq!(r.target().unwrap().bytes, [7; 16]);
    assert_eq!(r.discovered().len(), 2);
    match r.on_packet(&peer) {
        PacketAction::OpenLink { target } => assert_eq!(target.bytes, [7; 16]),
        _ => panic!("expected a link to open"),
    }
    r.peer_attached(peer);
    assert!(matches!(r.on_packet(&peer), PacketAction::ToPeerLink));
    r.peer_gone(&peer);
    assert!(matches!(r.on_packet(&peer), PacketAction::OpenLink { .. }));
}

#[test]
fn interface_plans() {
    assert_eq!(tcp_plan("0.0.0.0:4234"), TcpPlan::BindServer);
    assert_eq!(tcp_plan(":4234"), TcpPlan::BindServer);
    assert_eq!(tcp_plan("relay.example:4234"), TcpPlan::ConnectClient);
    assert_eq!(tcp_plan("relay.example:nope"), TcpPlan::Skip);
    assert_eq!(tcp_plan("relay.example"), TcpPlan::MissingPort);
    let p = plan_interfaces(None, false);
    assert!(p.no_interfaces);
    let p = plan_interfaces(Some("1.2.3.4:1"), true);
    assert_eq!(p.tcp, Some(TcpPlan::ConnectClient));
    assert!(p.auto && !p.no_interfaces);
}

#[test]
fn path_probe_and_link_setup() {
    assert_eq!(path_probe_step(1, true), ProbeStep::Resolved);
    assert_eq!(path_probe_step(1, false), ProbeStep::WaitThenRetry { next_attempt: 2 });
    assert_eq!(path_probe_step(PATH_PROBE_ATTEMPTS, false), ProbeStep::WaitThenGiveUp);
    assert_eq!(LinkSetup::FirstAttempt.next(false), LinkSetup::RequestingPath);
    assert_eq!(LinkSetup::RequestingPath.next(true), LinkSetup::SecondAttempt);
    assert_eq!(LinkSetup::SecondAttempt.next(false), LinkSetup::Failed);
    assert_eq!(LinkSetup::FirstAttempt.next(true), LinkSetup::Linked);
}

#[test]
fn steamcmd_command_line_orders_install_dir_first() {
    let args = steamcmd_pull_args("/srv/svends");
    assert_eq!(
        args,
        names(&[
            "+force_install_dir /srv/svends",
            "+login",
            "anonymous",
            "+app_update",
            "276060",
            "validate",
            "+quit"
        ])
    );
}

#[test]
fn bootstrap_download_and_unpacking() {
    let urls = download_urls("steamcmd.zip");
    assert_eq!(urls[0], format!("{}/steamcmd.zip", STEAMCDN_PRIMARY));
    assert_eq!(urls[1], format!("{}/steamcmd.zip", STEAMCDN_FALLBACK));
    assert_eq!(urls.len(), 2);
    assert_eq!(archive_kind(Os::Macos), Some(ArchiveKind::TarGz));
    assert_eq!(archive_kind(Os::Windows), Some(ArchiveKind::Zip));
    assert_eq!(archive_kind(Os::Other), None);
    assert_eq!(LINUX_32BIT_PACKAGES, ["lib32z1", "lib32gcc-s1", "lib32stdc++6"]);
}

#[test]
fn console_lines_split_and_clean() {
    let lines = console_lines("\x1b[0mLogging in\r\nprogress: 1 (1 / 2)\n\n  \n");
    assert_eq!(lines, names(&["Logging in", "progress: 1 (1 / 2)"]));
    assert!(console_lines("   ").is_empty());
    assert_eq!(console_lines("a\n\nb"), names(&["a", "", "b"]));
}

#[test]
fn missing_32bit_libs_are_detected() {
    assert!(needs_32bit_libs("", "ERROR WHILE LOADING SHARED LIBRARIES: libstdc++.so.6"));
    assert!(needs_32bit_libs("steamcmd: cannot open shared object file", ""));
    assert!(!needs_32bit_libs("Steam Console Client", "ok"));
    // The two outputs are joined by a line break, so a phrase is not
    // assembled across them.
    assert!(!needs_32bit_libs("cannot open", "shared object"));
}

#[test]
fn ds_start_is_refused_while_active_or_unsupported() {
    assert_eq!(ds_start_check(DsPhase::Idle, Os::Linux), Ok(()));
    assert_eq!(ds_start_check(DsPhase::Error, Os::Windows), Ok(()));
    assert_eq!(ds_start_check(DsPhase::Running, Os::Linux), Err(DsStartError::AlreadyActive));
    assert_eq!(ds_start_check(DsPhase::Pulling, Os::Macos), Err(DsStartError::AlreadyActive));
    assert_eq!(ds_start_check(DsPhase::Idle, Os::Macos), Err(DsStartError::NoNativeBuild));
    assert!(DsPhase::Pulling.keeps_progress());
    assert!(!DsPhase::Starting.keeps_progress());
}

#[test]
fn new_interface_is_found_by_diff() {
    let before = vec![vec![1u8], vec![2]];
    let after = vec![vec![2u8], vec![1], vec![3], vec![4]];
    assert_eq!(first_new_interface(&before, &after), Some(2));
    assert_eq!(first_new_interface(&before, &before), None);
    assert_eq!(first_new_interface(&Vec::new(), &after), Some(0));
}

#[test]
fn ended_relay_reopens_link_example() {
    let mut r = ClientRouter::new(Some(hash(3)));
    let peer = PeerAddr { ip: [1; 16], port: 27005 };
    r.peer_attached(peer);
    r.link_attached(hash(4));
    assert!(matches!(r.on_packet(&peer), PacketAction::ToPeerLink));
    match r.route(BridgeEvent::LinkData { link_id: hash(4), bytes: vec![1] }, 0) {
        ClientAction::Forward { bytes, .. } => assert_eq!(bytes, vec![1]),
        _ => panic!("expected forward"),
    }
    r.relay_ended(&peer, &hash(4));
    match r.on_packet(&peer) {
        PacketAction::OpenLink { target } => assert_eq!(target.bytes, [3; 16]),
        _ => panic!("expected a fresh link"),
    }
    assert!(matches!(
        r.route(BridgeEvent::LinkData { link_id: hash(4), bytes: vec![1] }, 0),
        ClientAction::DropUnknown { .. }
    ));
}

#[test]
fn ds_launch_args_carry_port_players_map() {
    let a = DsStartArgs { port: 27016, maxplayers: 12, ..DsStartArgs::default() };
    assert_eq!(
        svends_launch_args(&a),
        names(&["-port", "27016", "+maxplayers", "12", "+map", "svencoop1"])
    );
}

#[test]
fn ds_start_task_phases() {
    assert_eq!(
        ds_background_step(DsPhase::Pulling, DsEvent::Found),
        (DsPhase::Starting, DsAction::Prepare { remember_install: false })
    );
    assert_eq!(ds_background_step(DsPhase::Pulling, DsEvent::NotFound), (DsPhase::Pulling, DsAction::Pull));
    assert_eq!(ds_background_step(DsPhase::Pulling, DsEvent::PullFailed), (DsPhase::Error, DsAction::Clear));
    assert_eq!(
        ds_background_step(DsPhase::Pulling, DsEvent::PullDone { exe_ok: true }),
        (DsPhase::Starting, DsAction::Prepare { remember_install: true })
    );
    assert_eq!(ds_background_step(DsPhase::Pulling, DsEvent::PullDone { exe_ok: false }), (DsPhase::Error, DsAction::Clear));
    assert_eq!(ds_background_step(DsPhase::Starting, DsEvent::Prepared), (DsPhase::Starting, DsAction::Spawn));
    assert_eq!(ds_background_step(DsPhase::Starting, DsEvent::Spawned), (DsPhase::Running, DsAction::Run));
    assert_eq!(ds_background_step(DsPhase::Starting, DsEvent::SpawnFailed), (DsPhase::Error, DsAction::Clear));
    assert_eq!(ds_background_step(DsPhase::Pulling, DsEvent::Cancelled), (DsPhase::Idle, DsAction::Clear));
    assert_eq!(ds_background_step(DsPhase::Starting, DsEvent::Cancelled), (DsPhase::Idle, DsAction::Clear));
    assert_eq!(ds_background_step(DsPhase::Idle, DsEvent::Spawned), (DsPhase::Idle, DsAction::Ignore));
    assert_eq!(ds_background_step(DsPhase::Error, DsEvent::Cancelled), (DsPhase::Error, DsAction::Ignore));
}

#[test]
fn announce_name_round_trips() {
    assert_eq!(DEFAULT_ANNOUNCE_NAME, "sc-rns-bridge");
    assert_eq!(announce_app_data(&None), b"sc-rns-bridge".to_vec());
    let data = announce_app_data(&Some("Höhle".to_string()));
    assert_eq!(data, "Höhle".as_bytes().to_vec());
    assert_eq!(announced_name(&data).as_deref(), Some("Höhle"));
    assert_eq!(announced_name(&announce_app_data(&Some(String::new()))), None);
    assert_eq!(announced_name(&[0xff, 0xfe]), None);
    assert_eq!(announced_name(&[]), None);
}

#[test]
fn resume_errors_name_the_step() {
    let step = ResumeStep::StartServer(server_args());
    assert_eq!(resume_error(&step, "boom"), "bridge server: boom");
    let step = ResumeStep::StartClient(client_args());
    assert_eq!(resume_error(&step, "x"), "bridge client: x");
    let mut d = descriptor("ab01", "tcp");
    d.addr = Some("0.0.0.0:4234".to_string());
    let step = ResumeStep::AttachInterface(d);
    assert_eq!(resume_error(&step, "in use"), "interface \"0.0.0.0:4234\": in use");
    let step = ResumeStep::AttachInterface(descriptor("ab01", "auto"));
    assert_eq!(resume_error(&step, "e"), "interface \"auto\": e");
    let step = ResumeStep::StartDs(DsStartArgs::default());
    assert_eq!(resume_error(&step, "e"), "dedicated server: e");
}
