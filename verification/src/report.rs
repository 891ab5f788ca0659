//! The shapes of a violation report: as a browser sends it, as the buffer
//! holds it, and as the queries hand it out.

use vstd::prelude::*;
use crate::text::{opt_view, or_empty};

verus! {

/// A violation report as it arrives, every field of it optional.
#[derive(Debug, Clone, PartialEq, Eq)]
pub struct RawCspReport {
    pub document_uri: Option<String>,
    pub referrer: Option<String>,
    pub violated_directive: Option<String>,
    pub effective_directive: Option<String>,
    pub original_policy: Option<String>,
    pub disposition: Option<String>,
    pub blocked_uri: Option<String>,
    pub line_number: Option<u32>,
    pub column_number: Option<u32>,
    pub source_file: Option<String>,
    pub status_code: Option<u32>,
    pub script_sample: Option<String>,
}

/// A normalized violation report: the descriptive text fields are always
/// present, empty where the browser sent none.
#[derive(Debug, Clone, PartialEq, Eq)]
pub struct CspReport {
    pub document_uri: String,
    pub referrer: String,
    pub violated_directive: String,
    pub effective_directive: String,
    pub original_policy: String,
    pub disposition: String,
    pub blocked_uri: Option<String>,
    pub line_number: Option<u32>,
    pub column_number: Option<u32>,
    pub source_file: Option<String>,
    pub status_code: Option<u32>,
    pub script_sample: String,
}

/// A report together with the time it was taken in and the address it came
/// from. This is what the buffer holds and what the store keeps.
#[derive(Debug, Clone, PartialEq, Eq)]
pub struct BufferItem {
    pub document_uri: String,
    pub created_at: String,
    pub referrer: String,
    pub violated_directive: String,
    pub effective_directive: String,
    pub original_policy: String,
    pub disposition: String,
    pub blocked_uri: Option<String>,
    pub line_number: Option<u32>,
    pub column_number: Option<u32>,
    pub source_file: Option<String>,
    pub status_code: Option<u32>,
    pub script_sample: String,
    pub source_ip: String,
}

/// One kind of violation: the seven fields that describe it, when it was
/// first seen and how often.
#[derive(Debug, Clone, PartialEq, Eq)]
pub struct DistinctReport {
    pub violated_directive: String,
    pub effective_directive: String,
    pub original_policy: String,
    pub disposition: String,
    pub blocked_uri: Option<String>,
    pub source_file: Option<String>,
    pub script_sample: String,
    pub first_seen: String,
    pub cnt: u64,
}

/// The violations of one day, counted by directive family.
#[derive(Debug, Clone, PartialEq, Eq)]
pub struct ViolationCount {
    pub day: String,
    pub base_uri: u64,
    pub script_src: u64,
    pub img_src: u64,
    pub style_src: u64,
    pub connect_src: u64,
    pub media_src: u64,
    pub object_src: u64,
    pub frame_src: u64,
    pub font_src: u64,
}

/// The body of a report submission.
#[derive(Debug, Clone, PartialEq, Eq)]
pub struct ReportPayload {
    pub csp_report: CspReport,
}

/// Paging of the report listing.
#[derive(Debug, Clone, Copy, PartialEq, Eq)]
pub struct GetReportQueryParams {
    pub limit: Option<u32>,
    pub offset: Option<u32>,
}

/// Paging of the listing of distinct reports.
#[derive(Debug, Clone, Copy, PartialEq, Eq)]
pub struct GetDistinctReportQueryParams {
    pub limit: Option<u32>,
    pub offset: Option<u32>,
}

/// The seven descriptive fields by which reports are grouped.
pub ghost struct GroupKey {
    pub violated_directive: Seq<char>,
    pub effective_directive: Seq<char>,
    pub original_policy: Seq<char>,
    pub disposition: Seq<char>,
    pub blocked_uri: Option<Seq<char>>,
    pub source_file: Option<Seq<char>>,
    pub script_sample: Seq<char>,
}

/// What a normalized report holds.
pub ghost struct CspReportView {
    pub document_uri: Seq<char>,
    pub referrer: Seq<char>,
    pub violated_directive: Seq<char>,
    pub effective_directive: Seq<char>,
    pub original_policy: Seq<char>,
    pub disposition: Seq<char>,
    pub blocked_uri: Option<Seq<char>>,
    pub line_number: Option<u32>,
    pub column_number: Option<u32>,
    pub source_file: Option<Seq<char>>,
    pub status_code: Option<u32>,
    pub script_sample: Seq<char>,
}

/// What a stored record holds.
pub ghost struct BufferItemView {
    pub report: CspReportView,
    pub created_at: Seq<char>,
    pub source_ip: Seq<char>,
}

/// What a row of the distinct listing holds.
pub ghost struct DistinctReportView {
    pub key: GroupKey,
    pub first_seen: Seq<char>,
    pub cnt: nat,
}

/// What a row of the daily counts holds.
pub ghost struct ViolationCountView {
    pub day: Seq<char>,
    pub base_uri: nat,
    pub script_src: nat,
    pub img_src: nat,
    pub style_src: nat,
    pub connect_src: nat,
    pub media_src: nat,
    pub object_src: nat,
    pub frame_src: nat,
    pub font_src: nat,
}

impl View for CspReport {
    type V = CspReportView;

    open spec fn view(&self) -> CspReportView {
        CspReportView {
            document_uri: self.document_uri@,
            referrer: self.referrer@,
            violated_directive: self.violated_directive@,
            effective_directive: self.effective_directive@,
            original_policy: self.original_policy@,
            disposition: self.disposition@,
            blocked_uri: opt_view(self.blocked_uri),
            line_number: self.line_number,
            column_number: self.column_number,
            source_file: opt_view(self.source_file),
            status_code: self.status_code,
            script_sample: self.script_sample@,
        }
    }
}

impl View for BufferItem {
    type V = BufferItemView;

    open spec fn view(&self) -> BufferItemView {
        BufferItemView {
            report: CspReportView {
                document_uri: self.document_uri@,
                referrer: self.referrer@,
                violated_directive: self.violated_directive@,
                effective_directive: self.effective_directive@,
                original_policy: self.original_policy@,
                disposition: self.disposition@,
                blocked_uri: opt_view(self.blocked_uri),
                line_number: self.line_number,
                column_number: self.column_number,
                source_file: opt_view(self.source_file),
                status_code: self.status_code,
                script_sample: self.script_sample@,
            },
            created_at: self.created_at@,
            source_ip: self.source_ip@,
        }
    }
}

impl View for DistinctReport {
    type V = DistinctReportView;

    open spec fn view(&self) -> DistinctReportView {
        DistinctReportView {
            key: GroupKey {
                violated_directive: self.violated_directive@,
                effective_directive: self.effective_directive@,
                original_policy: self.original_policy@,
                disposition: self.disposition@,
                blocked_uri: opt_view(self.blocked_uri),
                source_file: opt_view(self.source_file),
                script_sample: self.script_sample@,
            },
            first_seen: self.first_seen@,
            cnt: self.cnt as nat,
        }
    }
}

impl View for ViolationCount {
    type V = ViolationCountView;

    open spec fn view(&self) -> ViolationCountView {
        ViolationCountView {
            day: self.day@,
            base_uri: self.base_uri as nat,
            script_src: self.script_src as nat,
            img_src: self.img_src as nat,
            style_src: self.style_src as nat,
            connect_src: self.connect_src as nat,
            media_src: self.media_src as nat,
            object_src: self.object_src as nat,
            frame_src: self.frame_src as nat,
            font_src: self.font_src as nat,
        }
    }
}

impl CspReportView {
    /// The fields by which this report is grouped.
    pub open spec fn key(self) -> GroupKey {
        GroupKey {
            violated_directive: self.violated_directive,
            effective_directive: self.effective_directive,
            original_policy: self.original_policy,
            disposition: self.disposition,
            blocked_uri: self.blocked_uri,
            source_file: self.source_file,
            script_sample: self.script_sample,
        }
    }
}

/// The views of a sequence of stored records, in the same order.
pub open spec fn item_views(items: Seq<BufferItem>) -> Seq<BufferItemView> {
    items.map_values(|i: BufferItem| i@)
}

/// The characters of an optional field, empty where it is absent.
pub open spec fn text_or_empty(o: Option<String>) -> Seq<char> {
    match o {
        Some(s) => s@,
        None => Seq::<char>::empty(),
    }
}

/// What normalizing a raw report gives: absent text fields become empty,
/// the optional fields stay as they are.
pub open spec fn normalized(raw: RawCspReport) -> CspReportView {
    CspReportView {
        document_uri: text_or_empty(raw.document_uri),
        referrer: text_or_empty(raw.referrer),
        violated_directive: text_or_empty(raw.violated_directive),
        effective_directive: text_or_empty(raw.effective_directive),
        original_policy: text_or_empty(raw.original_policy),
        disposition: text_or_empty(raw.disposition),
        blocked_uri: opt_view(raw.blocked_uri),
        line_number: raw.line_number,
        column_number: raw.column_number,
        source_file: opt_view(raw.source_file),
        status_code: raw.status_code,
        script_sample: text_or_empty(raw.script_sample),
    }
}

impl CspReport {
    /// Normalizes a report: a text field that was not sent is empty. No
    /// report is turned away for what it lacks.
    pub fn normalize(raw: RawCspReport) -> (r: CspReport)
        ensures
            r@ == normalized(raw),
    {
        CspReport {
            document_uri: or_empty(raw.document_uri),
            referrer: or_empty(raw.referrer),
            violated_directive: or_empty(raw.violated_directive),
            effective_directive: or_empty(raw.effective_directive),
            original_policy: or_empty(raw.original_policy),
            disposition: or_empty(raw.disposition),
            blocked_uri: raw.blocked_uri,
            line_number: raw.line_number,
            column_number: raw.column_number,
            source_file: raw.source_file,
            status_code: raw.status_code,
            script_sample: or_empty(raw.script_sample),
        }
    }
}

impl Default for CspReport {
    /// The report with nothing in it.
    fn default() -> (r: CspReport)
        ensures
            r@ == normalized(
                (RawCspReport {
                    document_uri: None,
                    referrer: None,
                    violated_directive: None,
                    effective_directive: None,
                    original_policy: None,
                    disposition: None,
                    blocked_uri: None,
                    line_number: None,
                    column_number: None,
                    source_file: None,
                    status_code: None,
                    script_sample: None,
                }),
            ),
    {
        CspReport {
            document_uri: String::new(),
            referrer: String::new(),
            violated_directive: String::new(),
            effective_directive: String::new(),
            original_policy: String::new(),
            disposition: String::new(),
            blocked_uri: None,
            line_number: None,
            column_number: None,
            source_file: None,
            status_code: None,
            script_sample: String::new(),
        }
    }
}

impl BufferItem {
    /// The record that the buffer keeps for `report`, taken in at
    /// `created_at` from `source_ip`.
    pub fn from_report(report: CspReport, created_at: String, source_ip: String) -> (item:
        BufferItem)
        ensures
            item@ == (BufferItemView {
                report: report@,
                created_at: created_at@,
                source_ip: source_ip@,
            }),
    {
        BufferItem {
            document_uri: report.document_uri,
            created_at,
            referrer: report.referrer,
            violated_directive: report.violated_directive,
            effective_directive: report.effective_directive,
            original_policy: report.original_policy,
            disposition: report.disposition,
            blocked_uri: report.blocked_uri,
            line_number: report.line_number,
            column_number: report.column_number,
            source_file: report.source_file,
            status_code: report.status_code,
            script_sample: report.script_sample,
            source_ip,
        }
    }
}

/// A value in one column of a row of the analytical store.
#[derive(Debug, Clone, PartialEq, Eq)]
pub enum ColumnValue {
    Text(String),
    UInteger(u32),
    Null,
}

/// What a column value holds.
pub ghost enum ColumnValueView {
    Text(Seq<char>),
    UInteger(u32),
    Null,
}

impl View for ColumnValue {
    type V = ColumnValueView;

    open spec fn view(&self) -> ColumnValueView {
        match self {
            ColumnValue::Text(s) => ColumnValueView::Text(s@),
            ColumnValue::UInteger(n) => ColumnValueView::UInteger(*n),
            ColumnValue::Null => ColumnValueView::Null,
        }
    }
}

/// The column value of an optional text.
pub open spec fn text_column(o: Option<Seq<char>>) -> ColumnValueView {
    match o {
        Some(s) => ColumnValueView::Text(s),
        None => ColumnValueView::Null,
    }
}

/// The column value of an optional number.
pub open spec fn number_column(o: Option<u32>) -> ColumnValueView {
    match o {
        Some(n) => ColumnValueView::UInteger(n),
        None => ColumnValueView::Null,
    }
}

/// The row that the analytical store keeps of a record: fourteen values in
/// the order of the table's columns.
pub open spec fn row_of(item: BufferItemView) -> Seq<ColumnValueView> {
    seq![
        ColumnValueView::Text(item.source_ip),
        ColumnValueView::Text(item.created_at),
        ColumnValueView::Text(item.report.document_uri),
        ColumnValueView::Text(item.report.referrer),
        ColumnValueView::Text(item.report.violated_directive),
        ColumnValueView::Text(item.report.effective_directive),
        ColumnValueView::Text(item.report.original_policy),
        ColumnValueView::Text(item.report.disposition),
        text_column(item.report.blocked_uri),
        number_column(item.report.line_number),
        number_column(item.report.column_number),
        text_column(item.report.source_file),
        number_column(item.report.status_code),
        ColumnValueView::Text(item.report.script_sample),
    ]
}

/// The views of the values of a row, in the same order.
pub open spec fn row_view(row: Seq<ColumnValue>) -> Seq<ColumnValueView> {
    row.map_values(|c: ColumnValue| c@)
}

fn text_value(o: &Option<String>) -> (c: ColumnValue)
    ensures
        c@ == text_column(opt_view(*o)),
{
    match o {
        Some(s) => ColumnValue::Text(s.clone()),
        None => ColumnValue::Null,
    }
}

fn number_value(o: Option<u32>) -> (c: ColumnValue)
    ensures
        c@ == number_column(o),
{
    match o {
        Some(n) => ColumnValue::UInteger(n),
        None => ColumnValue::Null,
    }
}

impl BufferItem {
    /// The record as a row of the analytical store.
    pub fn to_row(&self) -> (row: Vec<ColumnValue>)
        ensures
            row_view(row@) == row_of(self@),
    {
        let mut row: Vec<ColumnValue> = Vec::new();
        row.push(ColumnValue::Text(self.source_ip.clone()));
        row.push(ColumnValue::Text(self.created_at.clone()));
        row.push(ColumnValue::Text(self.document_uri.clone()));
        row.push(ColumnValue::Text(self.referrer.clone()));
        row.push(ColumnValue::Text(self.violated_directive.clone()));
        row.push(ColumnValue::Text(self.effective_directive.clone()));
        row.push(ColumnValue::Text(self.original_policy.clone()));
        row.push(ColumnValue::Text(self.disposition.clone()));
        row.push(text_value(&self.blocked_uri));
        row.push(number_value(self.line_number));
        row.push(number_value(self.column_number));
        row.push(text_value(&self.source_file));
        row.push(number_value(self.status_code));
        row.push(ColumnValue::Text(self.script_sample.clone()));
        assert(row_view(row@) =~= row_of(self@));
        row
    }
}

/// Turns a drained batch into the rows of one bulk append, a row for each
/// record and in the records' order.
pub fn append_buffer_items(buffer_items: &Vec<BufferItem>) -> (rows: Vec<Vec<ColumnValue>>)
    ensures
        rows@.len() == buffer_items@.len(),
        forall|i: int| 0 <= i < rows@.len() ==> row_view((#[trigger] rows@[i])@) == row_of(buffer_items@[i]@),
{
    let n: usize = buffer_items.len();
    let mut rows: Vec<Vec<ColumnValue>> = Vec::new();
    let mut i: usize = 0;
    while i < n
        invariant
            n == buffer_items@.len(),
            i <= n,
            rows@.len() == i,
            forall|k: int| 0 <= k < i ==> row_view((#[trigger] rows@[k])@) == row_of(buffer_items@[k]@),
        decreases n - i,
    {
        rows.push(buffer_items[i].to_row());
        i = i + 1;
    }
    rows
}

} // verus!
