//! The CCSDS time codes of a `Dt`: CUC on TAI, CDS and CCS on UTC.
use vstd::prelude::*;
use crate::arith::clamp128;
use crate::dt::{Dt, ATTOS_PER_SEC};
use crate::dt::ccsds::{cuc_result, cds_result, ccs_result};
use crate::dt::civil::ymd_fields;
use crate::dt::scale_conv::{int_scale, tai_attos};
use crate::error::DtErr;
use crate::scale::Scale;

verus! {

/// 1958-01-01 00:00:00 TAI, the CCSDS epoch, as a TAI count.
pub open spec fn ccsds_epoch_attos() -> int {
    -1_325_419_200 * ATTOS_PER_SEC
}

/// `d` with its target set to UTC.
pub open spec fn on_utc(d: Dt) -> Dt {
    Dt { attos: d.attos, scale: d.scale, target: Scale::UTC }
}

impl Dt {
    /// The CCSDS Unsegmented Time Code of this instant: TAI attoseconds since
    /// 1958-01-01 (saturating), encoded as `ccsds_cuc_from_tai` does.
    pub fn to_ccsds_cuc(&self, n_coarse: u8, n_frac: u8, extension: bool) -> (r: Result<([u8; 32], usize), DtErr>)
        requires
            int_scale(self.scale),
        ensures
            match cuc_result(clamp128(tai_attos(self.scale, self.attos as int) - ccsds_epoch_attos()),
                n_coarse as int, n_frac as int, extension) {
                Ok(octets) => r matches Ok((buf, len)) && len == octets.len()
                    && buf@.subrange(0, len as int) == octets
                    && forall|i: int| len <= i < 32 ==> buf@[i] == 0,
                Err(k) => r matches Err(e) && e.kind == k,
            },
    {
        let tai_since_1958 = self.target(Scale::TAI).to_scale_and_diff(Dt::ccsds_epoch(), false);
        Dt::ccsds_cuc_from_tai(tai_since_1958.attos, n_coarse, n_frac, extension)
    }

    /// The CCSDS Day Segmented Time Code of this instant's UTC date and time,
    /// encoded as `ccsds_cds_from_utc_fields` does.
    pub fn to_ccsds_cds(&self, n_day: u8, sub_ms_code: u8, extension: bool) -> (r: Result<([u8; 32], usize), DtErr>)
        requires
            int_scale(self.scale),
        ensures
            ({
                let f = ymd_fields(on_utc(*self));
                match cds_result(f.0, f.1, f.2, f.3, f.4, f.5, f.6, n_day as int, sub_ms_code as int, extension) {
                    Ok(octets) => r matches Ok((buf, len)) && len == octets.len()
                        && buf@.subrange(0, len as int) == octets
                        && forall|i: int| len <= i < 32 ==> buf@[i] == 0,
                    Err(k) => r matches Err(e) && e.kind == k,
                }
            }),
    {
        let ymd = self.target(Scale::UTC).to_ymd();
        Dt::ccsds_cds_from_utc_fields(ymd.yr, ymd.mo, ymd.day, ymd.hr, ymd.min, ymd.sec, ymd.attos,
            n_day, sub_ms_code, extension)
    }

    /// The CCSDS Calendar Segmented Time Code of this instant's UTC date and
    /// time, encoded as `ccsds_ccs_from_utc_fields` does.
    pub fn to_ccsds_ccs(&self, use_doy: bool, n_subsec: u8) -> (r: Result<([u8; 14], usize), DtErr>)
        requires
            int_scale(self.scale),
        ensures
            ({
                let f = ymd_fields(on_utc(*self));
                match ccs_result(f.0, f.1, f.2, f.3, f.4, f.5, f.6, use_doy, n_subsec as int) {
                    Ok(octets) => r matches Ok((buf, len)) && len == octets.len()
                        && buf@.subrange(0, len as int) == octets
                        && forall|i: int| len <= i < 14 ==> buf@[i] == 0,
                    Err(k) => r matches Err(e) && e.kind == k,
                }
            }),
    {
        let ymd = self.target(Scale::UTC).to_ymd();
        Dt::ccsds_ccs_from_utc_fields(ymd.yr, ymd.mo, ymd.day, ymd.hr, ymd.min, ymd.sec, ymd.attos,
            use_doy, n_subsec)
    }

    /// The default CCSDS code for this instant's `target`: CDS with two day
    /// octets and microseconds on a UTC target, CUC with four coarse and four
    /// fine octets otherwise.
    pub fn to_ccsds_bin(&self) -> (r: Result<([u8; 32], usize), DtErr>)
        requires
            int_scale(self.scale),
        ensures
            ({
                let f = ymd_fields(on_utc(*self));
                let expected = if self.target == Scale::UTC || self.target == Scale::UTCSpice || self.target == Scale::UTCSofa {
                    cds_result(f.0, f.1, f.2, f.3, f.4, f.5, f.6, 2, 1, false)
                } else {
                    cuc_result(clamp128(tai_attos(self.scale, self.attos as int) - ccsds_epoch_attos()), 4, 4, false)
                };
                match expected {
                    Ok(octets) => r matches Ok((buf, len)) && len == octets.len()
                        && buf@.subrange(0, len as int) == octets
                        && forall|i: int| len <= i < 32 ==> buf@[i] == 0,
                    Err(k) => r matches Err(e) && e.kind == k,
                }
            }),
    {
        if self.target.uses_leap_seconds() {
            self.to_ccsds_cds(2, 1, false)
        } else {
            self.to_ccsds_cuc(4, 4, false)
        }
    }
}

} // verus!
