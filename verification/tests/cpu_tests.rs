use gf2n::cpu::{capabilities_from_hwcap, parse_auxv, Capabilities};
use gf2n::gf2n::{gf128_params, gf64_params, GF2n};

fn record(key: u64, value: u64) -> Vec<u8> {
    let mut out = Vec::new();
    out.extend_from_slice(&key.to_le_bytes());
    out.extend_from_slice(&value.to_le_bytes());
    out
}

#[test]
fn test_capabilities_accelerated() {
    assert!(Capabilities::new(true, true).accelerated());
    assert!(!Capabilities::new(true, false).accelerated());
    assert!(!Capabilities::new(false, true).accelerated());
    assert!(!Capabilities::new(false, false).accelerated());
    assert!(!Capabilities::none().accelerated());
}

#[test]
fn test_capabilities_from_hwcap() {
    assert!(capabilities_from_hwcap(0x2 | 0x10).accelerated());
    assert!(!capabilities_from_hwcap(0x2).accelerated());
    assert!(!capabilities_from_hwcap(0x10).accelerated());
    assert!(!capabilities_from_hwcap(0).accelerated());
    // Other HWCAP bits do not matter.
    assert!(capabilities_from_hwcap(0xffff_ffff_ffff_ffff).accelerated());
    assert!(!capabilities_from_hwcap(0xffff_ffff_ffff_ffed).accelerated());
}

#[test]
fn test_parse_auxv_finds_hwcap() {
    let mut contents = Vec::new();
    contents.extend_from_slice(&record(6, 4096));
    contents.extend_from_slice(&record(16, 0x1122334455667788));
    contents.extend_from_slice(&record(0, 0));
    assert_eq!(parse_auxv(&contents), Some(0x1122334455667788));
}

#[test]
fn test_parse_auxv_first_match_wins() {
    let mut contents = Vec::new();
    contents.extend_from_slice(&record(16, 7));
    contents.extend_from_slice(&record(16, 9));
    assert_eq!(parse_auxv(&contents), Some(7));
}

#[test]
fn test_parse_auxv_missing_or_truncated() {
    assert_eq!(parse_auxv(&Vec::new()), None);
    let mut contents = Vec::new();
    contents.extend_from_slice(&record(6, 4096));
    assert_eq!(parse_auxv(&contents), None);
    // A final truncated record is ignored, even if its key would match.
    let mut contents = record(3, 1);
    contents.extend_from_slice(&16u64.to_le_bytes());
    contents.push(0xaa);
    assert_eq!(parse_auxv(&contents), None);
}

#[test]
fn test_dispatch_determinism() {
    // Repeated calls with the same detected capabilities always report
    // the same strategy tag, whatever the operands.
    for caps in [Capabilities::none(), Capabilities::new(true, true)] {
        let a = GF2n::from_words(gf64_params(), vec![5]);
        let b = GF2n::from_words(gf64_params(), vec![9]);
        let c = GF2n::from_words(gf128_params(), vec![1, 2]);
        let d = GF2n::from_words(gf128_params(), vec![3, 4]);
        let tag1 = a.multiply(&b, caps).1;
        let tag2 = a.multiply(&b, caps).1;
        let tag3 = c.multiply(&d, caps).1;
        assert_eq!(tag1, tag2);
        assert_eq!(tag1, tag3);
    }
}

#[test]
fn test_dispatch_tags() {
    let a = GF2n::from_words(gf64_params(), vec![5]);
    let b = GF2n::from_words(gf64_params(), vec![9]);
    assert_eq!(a.multiply(&b, Capabilities::none()).1, "fallback");
    assert_eq!(a.multiply(&b, Capabilities::new(true, true)).1, "accelerated");
    assert_eq!(a.multiply(&b, Capabilities::new(true, false)).1, "fallback");
    assert_eq!(a.multiply(&b, Capabilities::new(false, true)).1, "fallback");
}
