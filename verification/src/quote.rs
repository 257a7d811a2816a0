//! Quote decoding: the supported quote shape is a version-4 TD-style
//! report. The verifier checks the header, then reads the fourth runtime
//! measurement register and the embedded report data from their fixed
//! offsets in the report body. What binds the quote to the rest of the
//! evidence here is the measurement replay: the register value read from
//! the quote must be reproduced, byte for byte, from the event log and the
//! manifest before any codehash is released.

use vstd::prelude::*;
use crate::Error;

verus! {

/// Byte length of header plus TD report body.
pub const QUOTE_MIN_LEN: usize = 632;

/// Offset of the 48-byte rt_mr3 register inside the whole quote.
pub const RTMR3_OFFSET: usize = 520;

/// Offset of the 64-byte report_data field inside the whole quote.
pub const REPORT_DATA_OFFSET: usize = 568;

/// The quote's version field: a little-endian 16-bit value at offset 0.
pub open spec fn quote_version(q: Seq<u8>) -> int {
    q[0] + 256 * q[1]
}

/// The quote's TEE-type field: a little-endian 32-bit value at offset 4.
pub open spec fn quote_tee_type(q: Seq<u8>) -> int {
    q[4] + 256 * q[5] + 65536 * q[6] + 16777216 * q[7]
}

/// The supported shape: quote version 4 carrying a TD report (TEE type
/// 0x81).
pub open spec fn quote_shape_supported(q: Seq<u8>) -> bool {
    quote_version(q) == 4 && quote_tee_type(q) == 0x81
}

/// What the hardware attested: the embedded report data and the fourth
/// runtime measurement register.
#[derive(Debug)]
pub struct VerifiedReport {
    pub report_data: Vec<u8>,
    pub rtmr3: Vec<u8>,
}

#[verifier::ext_equal]
pub ghost struct ReportView {
    pub report_data: Seq<u8>,
    pub rtmr3: Seq<u8>,
}

impl View for VerifiedReport {
    type V = ReportView;

    open spec fn view(&self) -> ReportView {
        ReportView { report_data: self.report_data@, rtmr3: self.rtmr3@ }
    }
}

/// The report denoted by a quote: its rt_mr3 register and report data, once
/// the quote is long enough to hold a report body and its header declares
/// the supported shape.
pub open spec fn spec_verify_quote(q: Seq<u8>) -> Result<ReportView, Error> {
    if q.len() < QUOTE_MIN_LEN {
        Err(Error::VerificationFailure)
    } else if !quote_shape_supported(q) {
        Err(Error::UnsupportedReportType)
    } else {
        Ok(
            ReportView {
                report_data: q.subrange(
                    REPORT_DATA_OFFSET as int,
                    REPORT_DATA_OFFSET as int + 64,
                ),
                rtmr3: q.subrange(RTMR3_OFFSET as int, RTMR3_OFFSET as int + 48),
            },
        )
    }
}

/// Copy `src[from..to]` into a fresh vector.
fn copy_range(src: &Vec<u8>, from: usize, to: usize) -> (r: Vec<u8>)
    requires
        from <= to <= src@.len(),
    ensures
        r@ == src@.subrange(from as int, to as int),
{
    let mut out: Vec<u8> = Vec::new();
    let mut i: usize = from;
    while i < to
        invariant
            from <= i <= to <= src@.len(),
            out@ == src@.subrange(from as int, i as int),
        decreases to - i,
    {
        out.push(src[i]);
        i = i + 1;
        proof {
            assert(out@ =~= src@.subrange(from as int, i as int));
        }
    }
    out
}

/// Decode a raw quote into the verified report it carries.
pub fn verify_quote(quote: &Vec<u8>) -> (r: Result<VerifiedReport, Error>)
    ensures
        match r {
            Ok(rep) => spec_verify_quote(quote@) == Ok::<ReportView, Error>(rep@),
            Err(e) => spec_verify_quote(quote@) == Err::<ReportView, Error>(e),
        },
{
    if quote.len() < QUOTE_MIN_LEN {
        return Err(Error::VerificationFailure);
    }
    let version: u32 = quote[0] as u32 + 256 * (quote[1] as u32);
    let tee_type: u32 = quote[4] as u32 + 256 * (quote[5] as u32) + 65536 * (quote[6] as u32)
        + 16777216 * (quote[7] as u32);
    if !(version == 4 && tee_type == 0x81) {
        return Err(Error::UnsupportedReportType);
    }
    let rtmr3 = copy_range(quote, RTMR3_OFFSET, RTMR3_OFFSET + 48);
    let report_data = copy_range(quote, REPORT_DATA_OFFSET, REPORT_DATA_OFFSET + 64);
    let rep = VerifiedReport { report_data, rtmr3 };
    proof {
        assert(spec_verify_quote(quote@) == Ok::<ReportView, Error>(rep@));
    }
    Ok(rep)
}

/// `d` without its trailing zero bytes.
pub open spec fn trim_zeros(d: Seq<u8>) -> Seq<u8>
    decreases d.len(),
{
    if d.len() > 0 && d.last() == 0 {
        trim_zeros(d.drop_last())
    } else {
        d
    }
}

/// Strip the zero padding after the identity string embedded in a
/// report-data field.
pub fn trim_trailing_zeros(d: &Vec<u8>) -> (r: Vec<u8>)
    ensures
        r@ == trim_zeros(d@),
{
    let mut end: usize = d.len();
    proof {
        assert(d@.take(end as int) =~= d@);
    }
    while end > 0 && d[end - 1] == 0
        invariant
            end <= d@.len(),
            trim_zeros(d@) == trim_zeros(d@.take(end as int)),
        decreases end,
    {
        proof {
            assert(d@.take(end as int).drop_last() =~= d@.take(end - 1));
        }
        end = end - 1;
    }
    proof {
        if end > 0 {
            assert(trim_zeros(d@.take(end as int)) == d@.take(end as int));
        }
        assert(d@.subrange(0, end as int) =~= d@.take(end as int));
    }
    copy_range(d, 0, end)
}

} // verus!
