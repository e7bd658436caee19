use cast::controller::{
    check_parent, controller_is_alive, is_other_process, parse_process_start_time, ParentError,
    StatError,
};
use cast::devices::{
    check_transport, format_devices, interactive_video_output, TransportConflict,
};
use cast::discovery::{
    merge_service, service_from_info, sort_services, CastService, DeviceCapability,
    ResolvedService,
};
use cast::network::{http_url, private_route, route_for, IpAddr, Ipv6Addr, SocketAddr};
use cast::wireplumber::{parse_wpctl_device_id, parse_wpctl_volume, VolumeError};

fn v6(bits: u128, text: &str) -> IpAddr {
    IpAddr::V6(Ipv6Addr { bits, text: text.to_owned() })
}

#[test]
fn formats_ipv4_http_url() {
    let address = SocketAddr { ip: IpAddr::V4(192, 168, 1, 20), port: 8080 };
    assert_eq!(http_url(&address, "/private/media"), "http://192.168.1.20:8080/private/media");
}

#[test]
fn formats_bracketed_ipv6_http_url() {
    let address = SocketAddr {
        ip: v6(0xfe80_0000_0000_0000_0000_0000_0000_1234, "fe80::1234"),
        port: 8080,
    };
    assert_eq!(http_url(&address, "/private/media"), "http://[fe80::1234]:8080/private/media");
}

#[test]
fn private_routes_are_128_bit_hex_tokens() {
    let first = private_route().unwrap();
    let second = private_route().unwrap();
    assert_eq!(first.len(), 32);
    assert!(first.bytes().all(|byte| byte.is_ascii_hexdigit()));
    assert_ne!(first, second);
    assert_eq!(route_for(&[0, 0x1f, 0xab]), "001fab");
}

#[test]
fn addresses_are_ordered_and_named() {
    let low = IpAddr::V4(10, 0, 0, 1);
    let high = IpAddr::V4(10, 0, 1, 0);
    assert!(low.before(&high) && !high.before(&low));
    assert!(high.before(&v6(1, "::1")));
    assert!(low.same(&IpAddr::V4(10, 0, 0, 1)) && !low.same(&high));
    assert_eq!(low.text(), "10.0.0.1");
    assert_eq!(v6(1, "::1").text(), "::1");
    assert_eq!(low.probe_bind_address(), "0.0.0.0:0");
    assert_eq!(v6(1, "::1").probe_bind_address(), "[::]:0");
}

#[test]
fn identifies_audio_only_and_video_receivers_from_mdns_capabilities() {
    assert_eq!(DeviceCapability::from_mdns(Some("4")), DeviceCapability::AudioOnly);
    assert_eq!(DeviceCapability::from_mdns(Some("5")), DeviceCapability::Video);
}

#[test]
fn handles_missing_or_unrecognised_capabilities() {
    assert_eq!(DeviceCapability::from_mdns(None), DeviceCapability::Unknown);
    assert_eq!(DeviceCapability::from_mdns(Some("not-a-number")), DeviceCapability::Unknown);
}

fn service(name: &str, last: u8) -> CastService {
    CastService {
        name: name.to_owned(),
        model: "Receiver".to_owned(),
        capability: DeviceCapability::Video,
        address: IpAddr::V4(192, 0, 2, last),
        port: 8009,
    }
}

#[test]
fn merges_by_address_and_port_and_sorts_by_display_name() {
    let mut services = Vec::new();
    merge_service(&mut services, service("Zulu", 2));
    merge_service(&mut services, service("alpha", 1));
    merge_service(&mut services, service("Bedroom", 2));
    assert_eq!(services.len(), 2);
    assert_eq!(services[0].name, "alpha");
    assert_eq!(services[1].name, "Bedroom");
}

#[test]
fn services_are_sorted_without_regard_to_case() {
    let mut services = vec![service("b", 3), service("A", 2), service("B", 1)];
    sort_services(&mut services);
    let names: Vec<&str> = services.iter().map(|service| service.name.as_str()).collect();
    assert_eq!(names, ["A", "B", "b"]);
}

#[test]
fn resolved_services_prefer_ipv4_and_their_own_names() {
    let info = ResolvedService {
        ipv4_addresses: vec![IpAddr::V4(192, 0, 2, 9)],
        addresses: vec![v6(1, "::1"), IpAddr::V4(192, 0, 2, 9)],
        friendly_name: None,
        model: None,
        capabilities: Some("5".to_owned()),
        fullname: "tv._googlecast._tcp.local.".to_owned(),
        port: 8009,
    };
    let found = service_from_info(&info).unwrap();
    assert_eq!(found.address.text(), "192.0.2.9");
    assert_eq!(found.name, "tv._googlecast._tcp.local.");
    assert_eq!(found.model, "Unknown");
    assert_eq!(found.capability.label(), "Audio + video");
    let nowhere = ResolvedService { ipv4_addresses: vec![], addresses: vec![], ..info };
    assert!(service_from_info(&nowhere).is_none());
}

#[test]
fn device_table_aligns_columns_and_shows_capabilities() {
    let devices = [
        CastService {
            name: "Clock".into(),
            address: IpAddr::V4(192, 168, 86, 192),
            port: 8009,
            model: "Lenovo Smart Clock".into(),
            capability: DeviceCapability::AudioOnly,
        },
        CastService {
            name: "Living Room TV".into(),
            address: IpAddr::V4(192, 168, 86, 73),
            port: 8009,
            model: "Google TV Streamer".into(),
            capability: DeviceCapability::Video,
        },
    ];

    assert_eq!(
        format_devices(&devices),
        "NAME            ADDRESS         PORT  MODEL               CAPABILITY   \n\
         Clock           192.168.86.192  8009  Lenovo Smart Clock  Audio only   \n\
         Living Room TV  192.168.86.73   8009  Google TV Streamer  Audio + video\n"
    );
}

#[test]
fn interactive_video_requires_default_verbosity_and_terminal_io() {
    assert!(interactive_video_output(0, true, true));
    assert!(!interactive_video_output(1, true, true));
    assert!(!interactive_video_output(2, true, true));
    assert!(!interactive_video_output(0, false, true));
    assert!(!interactive_video_output(0, true, false));
}

#[test]
fn transports_refuse_the_options_of_the_other() {
    assert_eq!(check_transport(true, false, true, true, true), Ok(()));
    assert_eq!(
        check_transport(true, true, false, false, false),
        Err(TransportConflict::ServeOnlyWithMirror)
    );
    assert_eq!(
        check_transport(false, true, false, true, false),
        Err(TransportConflict::MirrorOptionsWithHls)
    );
    assert_eq!(check_transport(false, true, false, false, false), Ok(()));
}

#[test]
fn parses_start_time_after_a_parenthesized_process_name() {
    let mut fields = vec!["S"; 20];
    fields[19] = "987654";
    let stat = format!("42 (name with ) paren) {}", fields.join(" "));
    assert_eq!(parse_process_start_time(&stat).unwrap(), "987654");
}

#[test]
fn broken_process_states_are_told_apart() {
    assert_eq!(parse_process_start_time("42 name"), Err(StatError::Malformed));
    assert_eq!(parse_process_start_time("42 (name) S 1"), Err(StatError::StartTimeMissing));
}

#[test]
fn controllers_are_watched_by_their_start_time() {
    assert!(is_other_process(3, 2) && !is_other_process(2, 2) && !is_other_process(1, 2));
    let started = "987654".to_owned();
    assert!(controller_is_alive(&started, &Some("987654".to_owned())));
    assert!(!controller_is_alive(&started, &Some("1".to_owned())));
    assert!(!controller_is_alive(&started, &None));
}

#[test]
fn accepts_the_current_direct_parent() {
    assert_eq!(check_parent(41, 42, 41), Ok(41));
}

#[test]
fn rejects_the_current_process() {
    assert_eq!(check_parent(42, 42, 41), Err(ParentError::NotTheParent));
    assert_eq!(check_parent(u32::MAX, 42, 41), Err(ParentError::OutOfRange));
}

#[test]
fn parses_wireplumber_sink_state() {
    assert_eq!(parse_wpctl_device_id("id 42, type PipeWire:Interface:Node\n").unwrap(), 42);
    let (volume, muted) = parse_wpctl_volume("Volume: 0.625 [MUTED]\n").unwrap();
    assert_eq!((volume.parse::<f32>().unwrap(), muted), (0.625, true));
    let (volume, muted) = parse_wpctl_volume("Volume: 0.250\n").unwrap();
    assert_eq!((volume.parse::<f32>().unwrap(), muted), (0.25, false));
}

#[test]
fn broken_wireplumber_states_are_told_apart() {
    assert_eq!(parse_wpctl_device_id("node 42"), None);
    assert_eq!(parse_wpctl_volume("0.625"), Err(VolumeError::Unexpected));
    assert_eq!(parse_wpctl_volume("Volume:"), Err(VolumeError::Omitted));
}
