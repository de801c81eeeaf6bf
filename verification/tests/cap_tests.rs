use irc::cap::{
    Capabilities, Capability, CapabilityFormat, ExtendedJoin, MultiPrefix, Sasl, ServerTime,
    UserhostInNames,
};

#[test]
fn swag() {
    let mut caps = Capabilities::new();
    caps.set(UserhostInNames);
    caps.set(Sasl::new("EXTERNAL,DH-AES,DH-BLOWFISH,ECDSA-NIST256P-CHALLENGE,PLAIN"));

    let _uhost: UserhostInNames = caps.get().unwrap();

    let mut out = String::new();
    for cap_phrase in caps.iter_raw() {
        out.push_str(cap_phrase);
        out.push_str(" ");
    }
}

#[test]
fn capabilities_keep_the_last_value_set() {
    let mut caps = Capabilities::new();
    caps.set(Sasl::new("PLAIN"));
    caps.set(Sasl::new("EXTERNAL,PLAIN"));
    let sasl: Sasl = caps.get().unwrap();
    assert_eq!(sasl.protocols(), vec!["EXTERNAL", "PLAIN"]);
    assert_eq!(caps.iter_raw(), vec!["sasl=EXTERNAL,PLAIN"]);
    assert!(caps.get::<ServerTime>().is_none());
}

#[test]
fn capabilities_are_written_and_read_back() {
    assert_eq!(Sasl::new("").serialize_capability(), "sasl");
    assert_eq!(Sasl::new("PLAIN").serialize_capability(), "sasl=PLAIN");
    assert!(Sasl::parse_capability(b"sasl").is_ok());
    assert_eq!(Sasl::parse_capability(b"sasl=A,B").ok().unwrap().protocols(), vec!["A", "B"]);
    assert!(Sasl::parse_capability(b"sasl=\xff").is_err());
    assert!(Sasl::parse_capability(b"sas").is_err());
    assert!(ExtendedJoin::parse_capability(b"extended-join").is_ok());
    assert!(ExtendedJoin::parse_capability(b"extended-joi").is_err());
    assert_eq!(ServerTime::capability_name(), "server-time");
    assert_eq!(MultiPrefix.fmt_capability(), "extended-join");
    assert_eq!(MultiPrefix.serialize_capability(), "multi-prefix");
}

#[test]
fn sasl_protocols_of_empty_value_is_empty() {
    assert!(Sasl::new("").protocols().is_empty());
}

#[test]
fn sasl_protocols_lists_each_name() {
    let sasl = Sasl::new("EXTERNAL,DH-AES,DH-BLOWFISH,ECDSA-NIST256P-CHALLENGE,PLAIN");
    assert_eq!(
        sasl.protocols(),
        vec!["EXTERNAL", "DH-AES", "DH-BLOWFISH", "ECDSA-NIST256P-CHALLENGE", "PLAIN"]
    );
}
