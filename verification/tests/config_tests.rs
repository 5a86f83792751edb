use bench_config::config::Config;
use bench_config::config::Operation;
use bench_config::speed::Speed;

#[test]
fn operation_text() {
    assert_eq!("Read", Operation::Read.format());
    assert_eq!("Write", Operation::Write.format());
}

#[test]
fn default_config_values() {
    let c = Config::default();
    assert_eq!(600, c.duration);
    assert_eq!(1800, c.frequency);
    assert_eq!(vec![Operation::Read, Operation::Write], c.operations);
    assert_eq!(Speed::PassThrough, c.speed);
}

#[test]
fn default_config_text() {
    let text = Config::default().format();
    assert!(text.contains("Operations: Read:Write"));
    assert!(text.contains("Speed: PassThrough"));
    assert_eq!(
        "Config {Duration: 600sec, Frequency: 1800sec, Operations: Read:Write, Speed: PassThrough}",
        text
    );
}

#[test]
fn config_text_with_custom_values() {
    let c = Config {
        duration: 5,
        frequency: 10,
        operations: vec![Operation::Write, Operation::Read, Operation::Read],
        speed: Speed::Bps(2048),
    };
    assert_eq!(
        "Config {Duration: 5sec, Frequency: 10sec, Operations: Write:Read:Read, Speed: 2KBps}",
        c.format()
    );
}

#[test]
fn config_text_with_no_operations() {
    let c = Config {
        duration: 0,
        frequency: 0,
        operations: vec![],
        speed: Speed::Bps(0),
    };
    assert_eq!(
        "Config {Duration: 0sec, Frequency: 0sec, Operations: , Speed: 0Bps}",
        c.format()
    );
}
