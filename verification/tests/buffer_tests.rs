use csp_service::buffer::{report_csp, FlushAction, ReportBuffer, FLUSH_PERIOD_SECS};
use csp_service::error::ApiError;
use csp_service::report::{append_buffer_items, BufferItem, ColumnValue, CspReport, RawCspReport, ReportPayload};

fn report(document_uri: &str, directive: &str) -> CspReport {
    let mut r = CspReport::default();
    r.document_uri = document_uri.to_string();
    r.violated_directive = directive.to_string();
    r
}

#[test]
fn new_buffer_is_empty() {
    let mut b = ReportBuffer::new();
    assert_eq!(b.len(), 0);
    assert!(b.drain().is_empty());
}

#[test]
fn drain_returns_all_appended_in_order() {
    let mut b = ReportBuffer::new();
    let n = 25;
    for i in 0..n {
        b.append(
            report(&format!("https://example.test/{}", i), "img-src"),
            format!("2024-03-01T00:00:{:02}.000Z", i),
        );
    }
    assert_eq!(b.len(), n);
    let batch = b.drain();
    assert_eq!(batch.len(), n);
    for i in 0..n {
        assert_eq!(batch[i].document_uri, format!("https://example.test/{}", i));
        assert_eq!(batch[i].created_at, format!("2024-03-01T00:00:{:02}.000Z", i));
        assert_eq!(batch[i].violated_directive, "img-src");
        assert_eq!(batch[i].source_ip, "");
    }
}

#[test]
fn second_drain_is_empty() {
    let mut b = ReportBuffer::new();
    b.append(report("a", "script-src"), "2024-03-01T00:00:00.000Z".to_string());
    b.append(report("b", "script-src"), "2024-03-01T00:00:01.000Z".to_string());
    assert_eq!(b.drain().len(), 2);
    assert_eq!(b.drain().len(), 0);
    assert_eq!(b.len(), 0);
}

#[test]
fn append_after_drain_starts_a_new_batch() {
    let mut b = ReportBuffer::new();
    b.append(report("a", "script-src"), "t1".to_string());
    let first = b.drain();
    b.append(report("b", "style-src"), "t2".to_string());
    let second = b.drain();
    assert_eq!(first.len(), 1);
    assert_eq!(second.len(), 1);
    assert_eq!(first[0].document_uri, "a");
    assert_eq!(second[0].document_uri, "b");
}

#[test]
fn append_keeps_every_field_of_the_report() {
    let r = CspReport {
        document_uri: "https://example.test/page".to_string(),
        referrer: "https://ref.test/".to_string(),
        violated_directive: "script-src-elem".to_string(),
        effective_directive: "script-src-elem".to_string(),
        original_policy: "default-src 'self'".to_string(),
        disposition: "enforce".to_string(),
        blocked_uri: Some("https://evil.test/x.js".to_string()),
        line_number: Some(12),
        column_number: Some(34),
        source_file: Some("https://example.test/app.js".to_string()),
        status_code: Some(200),
        script_sample: "alert(1)".to_string(),
    };
    let mut b = ReportBuffer::new();
    b.append(r.clone(), "2024-05-06T07:08:09.123Z".to_string());
    let batch = b.drain();
    assert_eq!(
        batch[0],
        BufferItem {
            document_uri: r.document_uri,
            created_at: "2024-05-06T07:08:09.123Z".to_string(),
            referrer: r.referrer,
            violated_directive: r.violated_directive,
            effective_directive: r.effective_directive,
            original_policy: r.original_policy,
            disposition: r.disposition,
            blocked_uri: r.blocked_uri,
            line_number: Some(12),
            column_number: Some(34),
            source_file: r.source_file,
            status_code: Some(200),
            script_sample: r.script_sample,
            source_ip: String::new(),
        }
    );
}

#[test]
fn report_csp_appends_and_answers_ok() {
    let mut b = ReportBuffer::new();
    let answer = report_csp(Some(&mut b), Some(ReportPayload { csp_report: report("a", "font-src") }));
    assert_eq!(answer, Ok("OK"));
    assert_eq!(b.len(), 1);
    let batch = b.drain();
    assert_eq!(batch[0].document_uri, "a");
    assert_eq!(batch[0].violated_directive, "font-src");
    assert_eq!(batch[0].source_ip, "");
}

#[test]
fn report_csp_stamps_utc_time_to_the_millisecond() {
    let mut b = ReportBuffer::new();
    assert!(report_csp(Some(&mut b), Some(ReportPayload { csp_report: report("a", "font-src") })).is_ok());
    let batch = b.drain();
    let t: Vec<char> = batch[0].created_at.chars().collect();
    assert_eq!(t.len(), 24);
    assert_eq!(t[4], '-');
    assert_eq!(t[7], '-');
    assert_eq!(t[10], 'T');
    assert_eq!(t[13], ':');
    assert_eq!(t[16], ':');
    assert_eq!(t[19], '.');
    assert_eq!(t[23], 'Z');
    for i in [0, 1, 2, 3, 5, 6, 8, 9, 11, 12, 14, 15, 17, 18, 20, 21, 22] {
        assert!(t[i].is_ascii_digit());
    }
}

#[test]
fn report_csp_drops_the_report_when_the_buffer_is_held() {
    let answer = report_csp(None, Some(ReportPayload { csp_report: report("a", "font-src") }));
    assert_eq!(answer, Ok("OK"));
}

#[test]
fn dropped_reports_shorten_the_batch_and_keep_the_order() {
    let mut b = ReportBuffer::new();
    let taken = [true, false, true, true, false];
    for (i, t) in taken.iter().enumerate() {
        let payload = Some(ReportPayload { csp_report: report(&format!("r{}", i), "img-src") });
        let answer = if *t { report_csp(Some(&mut b), payload) } else { report_csp(None, payload) };
        assert_eq!(answer, Ok("OK"));
    }
    let batch = b.drain();
    assert!(batch.len() <= taken.len());
    let uris: Vec<&str> = batch.iter().map(|i| i.document_uri.as_str()).collect();
    assert_eq!(uris, vec!["r0", "r2", "r3"]);
}

#[test]
fn flush_tick_on_empty_buffer_is_idle() {
    let mut b = ReportBuffer::new();
    assert_eq!(b.flush_tick(), FlushAction::Idle);
}

#[test]
fn flush_tick_hands_out_the_batch_and_empties_the_buffer() {
    let mut b = ReportBuffer::new();
    b.append(report("a", "img-src"), "t1".to_string());
    b.append(report("b", "img-src"), "t2".to_string());
    match b.flush_tick() {
        FlushAction::Append(batch) => {
            assert_eq!(batch.len(), 2);
            assert_eq!(batch[0].document_uri, "a");
            assert_eq!(batch[1].document_uri, "b");
        }
        FlushAction::Idle => panic!("a batch was waiting"),
    }
    assert_eq!(b.len(), 0);
    assert_eq!(b.flush_tick(), FlushAction::Idle);
}

#[test]
fn normalize_fills_absent_text_fields_with_empty_strings() {
    let raw = RawCspReport {
        document_uri: None,
        referrer: Some("r".to_string()),
        violated_directive: None,
        effective_directive: Some("img-src".to_string()),
        original_policy: None,
        disposition: None,
        blocked_uri: None,
        line_number: Some(3),
        column_number: None,
        source_file: Some("f".to_string()),
        status_code: None,
        script_sample: None,
    };
    let r = CspReport::normalize(raw);
    assert_eq!(r.document_uri, "");
    assert_eq!(r.referrer, "r");
    assert_eq!(r.violated_directive, "");
    assert_eq!(r.effective_directive, "img-src");
    assert_eq!(r.original_policy, "");
    assert_eq!(r.disposition, "");
    assert_eq!(r.blocked_uri, None);
    assert_eq!(r.line_number, Some(3));
    assert_eq!(r.column_number, None);
    assert_eq!(r.source_file, Some("f".to_string()));
    assert_eq!(r.status_code, None);
    assert_eq!(r.script_sample, "");
}

#[test]
fn default_report_is_the_normalized_empty_report() {
    let raw = RawCspReport {
        document_uri: None,
        referrer: None,
        violated_directive: None,
        effective_directive: None,
        original_policy: None,
        disposition: None,
        blocked_uri: None,
        line_number: None,
        column_number: None,
        source_file: None,
        status_code: None,
        script_sample: None,
    };
    assert_eq!(CspReport::default(), CspReport::normalize(raw));
}

#[test]
fn row_has_fourteen_columns_in_table_order() {
    let item = BufferItem {
        document_uri: "doc".to_string(),
        created_at: "2024-05-06T07:08:09.123Z".to_string(),
        referrer: "ref".to_string(),
        violated_directive: "vd".to_string(),
        effective_directive: "ed".to_string(),
        original_policy: "op".to_string(),
        disposition: "dis".to_string(),
        blocked_uri: Some("blocked".to_string()),
        line_number: Some(1),
        column_number: None,
        source_file: None,
        status_code: Some(404),
        script_sample: "sample".to_string(),
        source_ip: "ip".to_string(),
    };
    let text = |s: &str| ColumnValue::Text(s.to_string());
    assert_eq!(
        item.to_row(),
        vec![
            text("ip"),
            text("2024-05-06T07:08:09.123Z"),
            text("doc"),
            text("ref"),
            text("vd"),
            text("ed"),
            text("op"),
            text("dis"),
            text("blocked"),
            ColumnValue::UInteger(1),
            ColumnValue::Null,
            ColumnValue::Null,
            ColumnValue::UInteger(404),
            text("sample"),
        ]
    );
}

#[test]
fn append_buffer_items_makes_one_row_per_record_in_order() {
    let mut b = ReportBuffer::new();
    b.append(report("a", "img-src"), "t1".to_string());
    b.append(report("b", "style-src"), "t2".to_string());
    let batch = b.drain();
    let rows = append_buffer_items(&batch);
    assert_eq!(rows.len(), 2);
    assert_eq!(rows[0], batch[0].to_row());
    assert_eq!(rows[1], batch[1].to_row());
    assert_eq!(rows[0][2], ColumnValue::Text("a".to_string()));
    assert_eq!(rows[1][4], ColumnValue::Text("style-src".to_string()));
    assert!(append_buffer_items(&Vec::new()).is_empty());
}

#[test]
fn report_csp_rejects_an_unreadable_body_and_buffers_nothing() {
    let mut b = ReportBuffer::new();
    b.append(report("a", "img-src"), "t1".to_string());
    assert_eq!(report_csp(Some(&mut b), None), Err(ApiError::BadRequest));
    assert_eq!(report_csp(None, None), Err(ApiError::BadRequest));
    assert_eq!(b.len(), 1);
    assert_eq!(b.drain()[0].document_uri, "a");
}

#[test]
fn the_flush_cycle_runs_once_a_second() {
    assert_eq!(FLUSH_PERIOD_SECS, 1);
}
