use mapeditr::instance::is_valid_name;
use mapeditr::instance::verify_args;
use mapeditr::instance::ArgFault;
use mapeditr::instance::ClientEvent;
use mapeditr::instance::InstArgs;
use mapeditr::instance::InstState;
use mapeditr::instance::LogType;
use mapeditr::instance::ServerEvent;
use mapeditr::instance::StatusServer;
use mapeditr::instance::status_link;
use mapeditr::search::find_bytes;
use mapeditr::spatial::Area;
use mapeditr::spatial::Vec3;
use mapeditr::testing::debug_bytes;
use mapeditr::utils::fmt_duration;
use mapeditr::utils::to_bytes;
use mapeditr::utils::to_slice;
use mapeditr::utils::CacheMap;

#[test]
fn test_debug_bytes() {
    let inp = b"\x00\x0a\x1f~~ Hello \\ World! ~~\x7f\xee\xff";
    let out = r"\x00\x0a\x1f~~ Hello \\ World! ~~\x7f\xee\xff";
    assert_eq!(&debug_bytes(&inp[..]), out);
}

#[test]
fn find_bytes_gives_the_first_place() {
    assert_eq!(find_bytes(b"The quick brown fox jumped over the lazy dog.", b"dog"), Some(41));
    assert_eq!(find_bytes(b"abcabcabc", b"bc"), Some(1));
    assert_eq!(find_bytes(b"abcabcabc", b"cb"), None);
    assert_eq!(find_bytes(b"abc", b""), Some(0));
    assert_eq!(find_bytes(b"", b"a"), None);
    assert_eq!(find_bytes(b"aaaaaaab", b"aab"), Some(5));
}

#[test]
fn fmt_duration_pads_to_two_digits() {
    assert_eq!(fmt_duration(0), "00:00");
    assert_eq!(fmt_duration(59), "00:59");
    assert_eq!(fmt_duration(61), "01:01");
    assert_eq!(fmt_duration(3599), "59:59");
    assert_eq!(fmt_duration(3600), "1:00:00");
    assert_eq!(fmt_duration(36000 + 62), "10:01:02");
    assert_eq!(fmt_duration(u64::MAX), "5124095576030431:00:15");
}

#[test]
fn bytes_and_slices_of_options() {
    assert_eq!(to_bytes(&"mod:node".to_string()), b"mod:node".to_vec());
    assert_eq!(to_slice(&Some(vec![1u8, 2])), &[vec![1u8, 2]][..]);
    assert_eq!(to_slice(&None).len(), 0);
}

#[test]
fn cache_drops_the_oldest_key() {
    let mut cache: CacheMap<i32> = CacheMap::with_capacity(2);
    cache.insert(10, 1);
    cache.insert(20, 2);
    assert_eq!(cache.get(&10), Some(&1));
    assert_eq!(cache.get(&20), Some(&2));
    cache.insert(30, 3);
    assert_eq!(cache.get(&10), None);
    assert_eq!(cache.get(&20), Some(&2));
    assert_eq!(cache.get(&30), Some(&3));
    assert_eq!(cache.get(&40), None);
}

#[test]
fn names_of_nodes() {
    assert!(is_valid_name("air"));
    assert!(is_valid_name("ignore"));
    assert!(is_valid_name("default:stone"));
    assert!(is_valid_name("mod_1:Some_Item9"));
    assert!(is_valid_name(":x"));
    assert!(!is_valid_name("stone"));
    assert!(!is_valid_name("Mod:stone"));
    assert!(!is_valid_name("mod:sto ne"));
    assert!(!is_valid_name("mod:a:b"));
    assert!(!is_valid_name("m\u{f6}d:stone"));
    assert!(!is_valid_name(""));
}

fn plain_args() -> InstArgs {
    InstArgs {
        do_confirmation: false,
        command: "fill".to_string(),
        map_path: "map.sqlite".to_string(),
        input_map_path: None,
        area: None,
        invert: false,
        offset: None,
        node: None,
        nodes: Vec::new(),
        new_node: None,
        object: None,
        item: None,
        items: None,
        new_item: None,
        delete: false,
        delete_meta: false,
        key: None,
        value: None,
        param2: None,
    }
}

#[test]
fn faults_of_arguments() {
    assert!(verify_args(&plain_args()).is_none());

    let mut args = plain_args();
    args.invert = true;
    let fault = verify_args(&args).unwrap();
    assert!(matches!(fault, ArgFault::InvertWithoutArea));
    assert_eq!(fault.to_string(), "Cannot invert without a specified area.");

    let mut args = plain_args();
    args.area = Some(Area::new(Vec3::new(0, 0, 0), Vec3::new(0, 31001, 0)));
    let fault = verify_args(&args).unwrap();
    assert!(matches!(fault, ArgFault::CornerOutside(_)));
    assert_eq!(fault.to_string(), "Area corner is outside map bounds: (0, 31001, 0).");

    let mut args = plain_args();
    args.offset = Some(Vec3::new(0, 0, -62001));
    assert!(matches!(verify_args(&args), Some(ArgFault::OffsetTooLarge)));
    args.offset = Some(Vec3::new(62000, -62000, 0));
    assert!(verify_args(&args).is_none());

    let mut args = plain_args();
    args.nodes = vec!["default:stone".to_string(), "Bad".to_string()];
    assert!(matches!(verify_args(&args), Some(ArgFault::BadNodeName)));

    let mut args = plain_args();
    args.object = Some("no colon".to_string());
    assert!(matches!(verify_args(&args), Some(ArgFault::BadObjectName)));

    let mut args = plain_args();
    args.items = Some(vec!["x:y".to_string(), "?".to_string()]);
    assert!(matches!(verify_args(&args), Some(ArgFault::BadItemName)));
}

#[test]
fn status_goes_idle_querying_editing_idle() {
    let (mut server, mut client) = status_link();
    assert!(server.get_status().state == InstState::Ignore);
    assert!(server.get_status().show_progress);
    assert!(client.get_status() == server.get_status());
    assert_eq!(
        (
            client.get_status().blocks_total,
            client.get_status().blocks_done,
            client.get_status().blocks_failed
        ),
        (0, 0, 0)
    );
    assert_eq!(client.receiver().len(), 0);
    server.set_state(InstState::Querying);
    server.set_total(3);
    server.begin_editing();
    server.inc_done();
    server.inc_done();
    server.inc_failed();
    server.log_info("2 nodes filled.");
    server.end_editing();
    let status = server.get_status();
    assert_eq!(
        (status.blocks_total, status.blocks_done, status.blocks_failed),
        (3, 2, 1)
    );
    assert!(status.state == InstState::Ignore);
    let events = server.take_events();
    assert_eq!(events.len(), 4);
    assert!(matches!(events[0], ServerEvent::NewState(InstState::Querying)));
    assert!(matches!(events[1], ServerEvent::NewState(InstState::Editing)));
    assert!(matches!(&events[2], ServerEvent::Log(LogType::Info, text) if text == "2 nodes filled."));
    assert!(matches!(events[3], ServerEvent::NewState(InstState::Ignore)));
    assert_eq!(server.take_events().len(), 0);

    client.deliver(status, events);
    assert_eq!(client.get_status().blocks_done, 2);
    assert_eq!(client.receiver().len(), 4);
}

#[test]
fn confirmation_needs_a_yes() {
    let (mut server, mut client) = status_link();
    server.request_confirmation();
    let events = server.take_events();
    assert!(matches!(events[0], ServerEvent::ConfirmRequest));
    client.confirm(true);
    assert!(server.get_confirmation(Some(ClientEvent::ConfirmResponse(true))));
    assert!(!server.get_confirmation(Some(ClientEvent::ConfirmResponse(false))));
    assert!(!server.get_confirmation(None));
    assert_eq!(LogType::Warning.to_string(), "warning");
    assert_eq!(LogType::Info.to_string(), "info");
    assert_eq!(LogType::Error.to_string(), "error");
}

fn texts(events: &[ServerEvent]) -> Vec<(String, String)> {
    events
        .iter()
        .map(|e| match e {
            ServerEvent::Log(kind, text) => (kind.to_string(), text.clone()),
            ServerEvent::NewState(_) => ("state".to_string(), String::new()),
            ServerEvent::ConfirmRequest => ("confirm".to_string(), String::new()),
        })
        .collect()
}

#[test]
fn a_run_warns_asks_and_reports() {
    let mut server = StatusServer::new();
    assert!(server.open_run(true, &Some("careful".to_string())));
    let events = texts(&server.take_events());
    assert_eq!(events.len(), 3);
    assert_eq!(events[0].0, "warning");
    assert!(events[0].1.starts_with("This tool can permanently damage your Minetest world.\nAlways EXIT"));
    assert_eq!(events[1], ("warning".to_string(), "careful".to_string()));
    assert_eq!(events[2].0, "confirm");

    assert!(!server.open_run(false, &None));
    assert_eq!(server.take_events().len(), 0);

    for _ in 0..12 {
        server.inc_failed();
    }
    assert!(server.close_run(true));
    server.end_run();
    let events = texts(&server.take_events());
    assert_eq!(
        events,
        vec![
            ("info".to_string(), "Skipped 12 invalid/unsupported mapblocks.".to_string()),
            ("info".to_string(), "Committing...".to_string()),
            ("info".to_string(), "Done.".to_string()),
        ]
    );
    let mut quiet = StatusServer::new();
    assert!(!quiet.close_run(false));
    assert_eq!(quiet.take_events().len(), 0);
}
