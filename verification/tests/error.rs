use baan::error::BaanError;

fn io_err() -> std::io::Error {
    std::io::Error::new(std::io::ErrorKind::NotFound, "boom")
}

#[test]
fn error_trait_source_returns_io_cause_only() {
    let open = BaanError::Open {
        path: "x".into(),
        source: io_err(),
    };
    assert!(open.source().is_some());

    let privileged = BaanError::Privileges;
    assert!(privileged.source().is_none());
}

fn text(s: &str) -> String {
    s.to_string()
}

#[test]
fn every_error_has_its_report() {
    let cases = [
        (
            BaanError::Open { path: text("/dev/x"), source: io_err() },
            "Error opening '/dev/x': boom",
        ),
        (
            BaanError::Read { path: text("/dev/x"), source: io_err() },
            "Error reading from '/dev/x': boom",
        ),
        (
            BaanError::Write { detail: text("virtual device"), source: io_err() },
            "Error writing: virtual device (boom)",
        ),
        (
            BaanError::InvalidCharacter { ch: '\n' },
            "Invalid character in trigger: '\\n'",
        ),
        (
            BaanError::InvalidCharacter { ch: 'é' },
            "Invalid character in trigger: 'é'",
        ),
        (
            BaanError::InitVirtualInput { detail: text("d") },
            "Error initializing virtual input: d",
        ),
        (
            BaanError::AddKey { keycode: 30, detail: text("d") },
            "Error adding key to virtual input: 30,detail: d",
        ),
        (
            BaanError::SetupVirtualDevice { detail: text("d") },
            "Error setting up virtual device: d",
        ),
        (
            BaanError::CreateVirtualDevice { detail: text("d") },
            "Error creating virtual device: d",
        ),
        (BaanError::Privileges, "Need sudo privileges"),
        (BaanError::Command { detail: text("d") }, "Command error: d"),
        (BaanError::Signal, "Failed to install signal handler"),
        (
            BaanError::DestroyVirtualDevice { detail: text("d") },
            "Error destroy device: d",
        ),
        (
            BaanError::InvalidTrigger { line: 3, trigger: text("t"), detail: text("d") },
            "Invalid trigger line: 3, trigger: t, detail: d",
        ),
        (
            BaanError::ParseConfigFile { line: 12, detail: text("d") },
            "Invalid trigger line: 12, detail: d",
        ),
        (BaanError::Uid, "Error getting current user's UID"),
        (BaanError::Ioctl { detail: text("d") }, "Ioctl error: d"),
        (BaanError::Clipboard, "Failed to initialize clipboard"),
    ];
    for (error, report) in cases {
        assert_eq!(error.message(), report);
        assert_eq!(error.render("boom"), report);
    }
}
