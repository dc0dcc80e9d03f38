use qbank::logger::{LogBuffer, MAX_LOG_ENTRIES};

#[test]
fn entries_keep_their_fields_and_order() {
    let mut buffer = LogBuffer::new();
    buffer.log("info", "system", "starting up");
    buffer.log("error", "ocr", "page failed");
    let logs = buffer.get_logs();
    assert_eq!(logs.len(), 2);
    assert_eq!(logs[0].level, "info");
    assert_eq!(logs[0].source, "system");
    assert_eq!(logs[0].message, "starting up");
    assert_eq!(logs[1].level, "error");
    assert_eq!(logs[1].source, "ocr");
}

#[test]
fn buffer_drops_oldest_beyond_the_cap() {
    let mut buffer = LogBuffer::new();
    for i in 0..(MAX_LOG_ENTRIES + 10) {
        buffer.log("info", "system", &format!("entry {}", i));
    }
    assert_eq!(buffer.len(), MAX_LOG_ENTRIES);
    let logs = buffer.get_logs();
    assert_eq!(logs[0].message, "entry 10");
    assert_eq!(logs[MAX_LOG_ENTRIES - 1].message, format!("entry {}", MAX_LOG_ENTRIES + 9));
}

#[test]
fn filtering_by_source() {
    let mut buffer = LogBuffer::new();
    buffer.log("info", "mineru", "a");
    buffer.log("info", "system", "b");
    buffer.log("warn", "mineru", "c");
    let mineru = buffer.get_logs_by_source("mineru");
    assert_eq!(mineru.len(), 2);
    assert_eq!(mineru[0].message, "a");
    assert_eq!(mineru[1].message, "c");
    assert!(buffer.get_logs_by_source("nope").is_empty());
}

#[test]
fn clearing_empties_the_buffer() {
    let mut buffer = LogBuffer::new();
    buffer.log("info", "system", "x");
    buffer.clear_logs();
    assert_eq!(buffer.len(), 0);
    assert!(buffer.get_logs().is_empty());
}
