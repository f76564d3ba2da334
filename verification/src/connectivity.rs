//! Connectivity model: connection types, derived quality scores, adaptive
//! suggestions (timeouts, image quality) and a bandwidth estimator.

use vstd::prelude::*;

verus! {

/// Kind of network link the device currently has.
#[derive(Clone, Copy, PartialEq, Eq, Structural, Debug)]
pub enum ConnectionType {
    /// No network connectivity.
    Offline,
    /// 2G cellular (GPRS, EDGE).
    Cellular2G,
    /// 3G cellular (HSPA, UMTS).
    Cellular3G,
    /// 4G cellular (LTE).
    Cellular4G,
    /// 5G cellular.
    Cellular5G,
    /// WiFi connection.
    WiFi,
    /// Wired connection.
    Ethernet,
    /// Unknown connection type.
    Unknown,
}

impl ConnectionType {
    /// Typical downlink range in Kbps for this kind of link.
    pub open spec fn spec_typical_bandwidth_kbps(self) -> (u32, u32) {
        match self {
            ConnectionType::Offline => (0u32, 0u32),
            ConnectionType::Cellular2G => (50u32, 200u32),
            ConnectionType::Cellular3G => (1000u32, 5000u32),
            ConnectionType::Cellular4G => (5000u32, 50000u32),
            ConnectionType::Cellular5G => (50000u32, 1000000u32),
            ConnectionType::WiFi => (5000u32, 100000u32),
            ConnectionType::Ethernet => (10000u32, 1000000u32),
            ConnectionType::Unknown => (100u32, 1000u32),
        }
    }

    /// Get the typical bandwidth range for this connection type (in Kbps).
    pub fn typical_bandwidth_kbps(&self) -> (r: (u32, u32))
        ensures
            r == self.spec_typical_bandwidth_kbps(),
    {
        match self {
            ConnectionType::Offline => (0, 0),
            ConnectionType::Cellular2G => (50, 200),
            ConnectionType::Cellular3G => (1000, 5000),
            ConnectionType::Cellular4G => (5000, 50000),
            ConnectionType::Cellular5G => (50000, 1000000),
            ConnectionType::WiFi => (5000, 100000),
            ConnectionType::Ethernet => (10000, 1000000),
            ConnectionType::Unknown => (100, 1000),
        }
    }

    /// A metered link is one the user pays for per megabyte.
    pub open spec fn spec_is_metered(self) -> bool {
        match self {
            ConnectionType::Cellular2G => true,
            ConnectionType::Cellular3G => true,
            ConnectionType::Cellular4G => true,
            ConnectionType::Cellular5G => true,
            _ => false,
        }
    }

    /// Whether this connection is metered (user pays per MB).
    pub fn is_metered(&self) -> (r: bool)
        ensures
            r == self.spec_is_metered(),
    {
        match self {
            ConnectionType::Cellular2G => true,
            ConnectionType::Cellular3G => true,
            ConnectionType::Cellular4G => true,
            ConnectionType::Cellular5G => true,
            _ => false,
        }
    }

    /// Fixed quality table: 0 for offline up to 95 for a wired link.
    pub open spec fn spec_quality_score(self) -> u8 {
        match self {
            ConnectionType::Offline => 0u8,
            ConnectionType::Cellular2G => 15u8,
            ConnectionType::Cellular3G => 40u8,
            ConnectionType::Cellular4G => 70u8,
            ConnectionType::Cellular5G => 90u8,
            ConnectionType::WiFi => 80u8,
            ConnectionType::Ethernet => 95u8,
            ConnectionType::Unknown => 20u8,
        }
    }

    /// Get a quality score from 0 (offline) to 100 (excellent).
    pub fn quality_score(&self) -> (r: u8)
        ensures
            r == self.spec_quality_score(),
    {
        match self {
            ConnectionType::Offline => 0,
            ConnectionType::Cellular2G => 15,
            ConnectionType::Cellular3G => 40,
            ConnectionType::Cellular4G => 70,
            ConnectionType::Cellular5G => 90,
            ConnectionType::WiFi => 80,
            ConnectionType::Ethernet => 95,
            ConnectionType::Unknown => 20,
        }
    }

    /// Typical round-trip time in milliseconds for this kind of link.
    pub open spec fn spec_default_rtt_ms(self) -> u32 {
        match self {
            ConnectionType::Offline => 0u32,
            ConnectionType::Cellular2G => 800u32,
            ConnectionType::Cellular3G => 200u32,
            ConnectionType::Cellular4G => 50u32,
            ConnectionType::Cellular5G => 10u32,
            ConnectionType::WiFi => 30u32,
            ConnectionType::Ethernet => 5u32,
            ConnectionType::Unknown => 500u32,
        }
    }
}

/// Current network status with all relevant info.
#[derive(Clone, Copy, PartialEq, Eq, Structural, Debug)]
pub struct NetworkStatus {
    /// Connection type.
    pub connection_type: ConnectionType,
    /// Estimated downlink bandwidth in Kbps (0 if unknown).
    pub downlink_kbps: u32,
    /// Estimated round-trip time in ms (0 if unknown).
    pub rtt_ms: u32,
    /// Whether the user has "save data" / "low data" mode enabled.
    pub save_data: bool,
    /// Whether the connection is metered.
    pub is_metered: bool,
    /// Quality score 0-100.
    pub quality_score: u8,
    /// Whether we're currently online.
    pub is_online: bool,
}

impl NetworkStatus {
    /// The status that stands for no connectivity at all.
    pub open spec fn spec_offline() -> NetworkStatus {
        NetworkStatus {
            connection_type: ConnectionType::Offline,
            downlink_kbps: 0u32,
            rtt_ms: 0u32,
            save_data: false,
            is_metered: false,
            quality_score: 0u8,
            is_online: false,
        }
    }

    /// Create an offline status.
    pub fn offline() -> (r: NetworkStatus)
        ensures
            r == NetworkStatus::spec_offline(),
    {
        NetworkStatus {
            connection_type: ConnectionType::Offline,
            downlink_kbps: 0,
            rtt_ms: 0,
            save_data: false,
            is_metered: false,
            quality_score: 0,
            is_online: false,
        }
    }

    /// The status derived from a connection type alone: the downlink is the
    /// midpoint of the typical range, and the other fields come from the
    /// fixed per-type tables.
    pub open spec fn spec_from_connection_type(conn_type: ConnectionType) -> NetworkStatus {
        NetworkStatus {
            connection_type: conn_type,
            downlink_kbps: ((conn_type.spec_typical_bandwidth_kbps().0
                + conn_type.spec_typical_bandwidth_kbps().1) / 2) as u32,
            rtt_ms: conn_type.spec_default_rtt_ms(),
            save_data: false,
            is_metered: conn_type.spec_is_metered(),
            quality_score: conn_type.spec_quality_score(),
            is_online: conn_type != ConnectionType::Offline,
        }
    }

    /// Create status from connection type with estimated values.
    pub fn from_connection_type(conn_type: ConnectionType) -> (r: NetworkStatus)
        ensures
            r == NetworkStatus::spec_from_connection_type(conn_type),
    {
        let (min_bw, max_bw) = conn_type.typical_bandwidth_kbps();
        let avg_bw: u32 = (min_bw + max_bw) / 2;
        let rtt: u32 = match conn_type {
            ConnectionType::Offline => 0,
            ConnectionType::Cellular2G => 800,
            ConnectionType::Cellular3G => 200,
            ConnectionType::Cellular4G => 50,
            ConnectionType::Cellular5G => 10,
            ConnectionType::WiFi => 30,
            ConnectionType::Ethernet => 5,
            ConnectionType::Unknown => 500,
        };

        NetworkStatus {
            connection_type: conn_type,
            downlink_kbps: avg_bw,
            rtt_ms: rtt,
            save_data: false,
            is_metered: conn_type.is_metered(),
            quality_score: conn_type.quality_score(),
            is_online: conn_type != ConnectionType::Offline,
        }
    }

    /// Timeout bucket in milliseconds for a given quality score: patient on
    /// bad links, tight on good ones; 0 means "offline, do not try".
    pub open spec fn spec_suggested_timeout_ms(quality: u8) -> u64 {
        if quality == 0 {
            0u64
        } else if quality <= 20 {
            60000u64
        } else if quality <= 40 {
            30000u64
        } else if quality <= 70 {
            15000u64
        } else if quality <= 90 {
            10000u64
        } else {
            5000u64
        }
    }

    /// Suggest a timeout in milliseconds based on network quality.
    pub fn suggested_timeout_ms(&self) -> (r: u64)
        ensures
            r == NetworkStatus::spec_suggested_timeout_ms(self.quality_score),
    {
        if self.quality_score == 0 {
            0
        } else if self.quality_score <= 20 {
            60000
        } else if self.quality_score <= 40 {
            30000
        } else if self.quality_score <= 70 {
            15000
        } else if self.quality_score <= 90 {
            10000
        } else {
            5000
        }
    }

    /// Image-quality bucket for a quality score, before the save-data
    /// override.
    pub open spec fn spec_quality_bucket(quality: u8) -> ImageQuality {
        if quality <= 14 {
            ImageQuality::Placeholder
        } else if quality <= 30 {
            ImageQuality::Low
        } else if quality <= 60 {
            ImageQuality::Medium
        } else if quality <= 80 {
            ImageQuality::High
        } else {
            ImageQuality::Original
        }
    }

    /// The suggested image quality: the bucket for the quality score, except
    /// that save-data mode always forces `Low`.
    pub open spec fn spec_suggested_image_quality(self) -> ImageQuality {
        if self.save_data {
            ImageQuality::Low
        } else {
            NetworkStatus::spec_quality_bucket(self.quality_score)
        }
    }

    /// Suggest image quality based on network.
    pub fn suggested_image_quality(&self) -> (r: ImageQuality)
        ensures
            r == self.spec_suggested_image_quality(),
    {
        if self.save_data {
            return ImageQuality::Low;
        }
        if self.quality_score <= 14 {
            ImageQuality::Placeholder
        } else if self.quality_score <= 30 {
            ImageQuality::Low
        } else if self.quality_score <= 60 {
            ImageQuality::Medium
        } else if self.quality_score <= 80 {
            ImageQuality::High
        } else {
            ImageQuality::Original
        }
    }
}

/// Image quality levels for adaptive loading.
#[derive(Clone, Copy, PartialEq, Eq, Structural, Debug)]
pub enum ImageQuality {
    /// Don't load the image, show a placeholder.
    Placeholder,
    /// Thumbnail / heavily compressed.
    Low,
    /// Medium quality.
    Medium,
    /// High quality.
    High,
    /// Original quality.
    Original,
}

impl ImageQuality {
    /// The pixel-width cap for each quality level.
    pub open spec fn spec_max_width(self) -> u32 {
        match self {
            ImageQuality::Placeholder => 0u32,
            ImageQuality::Low => 144u32,
            ImageQuality::Medium => 480u32,
            ImageQuality::High => 1080u32,
            ImageQuality::Original => u32::MAX,
        }
    }

    /// Max width in pixels for this quality level.
    pub fn max_width(&self) -> (r: u32)
        ensures
            r == self.spec_max_width(),
    {
        match self {
            ImageQuality::Placeholder => 0,
            ImageQuality::Low => 144,
            ImageQuality::Medium => 480,
            ImageQuality::High => 1080,
            ImageQuality::Original => u32::MAX,
        }
    }

    /// The JPEG quality setting for each quality level.
    pub open spec fn spec_jpeg_quality(self) -> u8 {
        match self {
            ImageQuality::Placeholder => 0u8,
            ImageQuality::Low => 30u8,
            ImageQuality::Medium => 60u8,
            ImageQuality::High => 80u8,
            ImageQuality::Original => 95u8,
        }
    }

    /// Suggested JPEG quality (0-100).
    pub fn jpeg_quality(&self) -> (r: u8)
        ensures
            r == self.spec_jpeg_quality(),
    {
        match self {
            ImageQuality::Placeholder => 0,
            ImageQuality::Low => 30,
            ImageQuality::Medium => 60,
            ImageQuality::High => 80,
            ImageQuality::Original => 95,
        }
    }

    /// Preferred image format.
    pub fn preferred_format(&self) -> (r: &'static str)
        ensures
            match *self {
                ImageQuality::Placeholder => r@ == "none"@,
                ImageQuality::Low => r@ == "jpeg"@,
                ImageQuality::Medium => r@ == "webp"@,
                ImageQuality::High => r@ == "webp"@,
                ImageQuality::Original => r@ == "avif"@,
            },
    {
        match self {
            ImageQuality::Placeholder => "none",
            ImageQuality::Low => "jpeg",
            ImageQuality::Medium => "webp",
            ImageQuality::High => "webp",
            ImageQuality::Original => "avif",
        }
    }
}

/// The estimator never keeps more than this many samples, whatever bound it
/// was created with: the moving average is defined over at most 50 samples.
pub const MAX_BANDWIDTH_SAMPLES: usize = 50;

/// Kilobits per second of one sample `(bytes, duration_ms)`: bits per
/// millisecond, rounded down.
pub open spec fn spec_sample_kbps(s: (u64, u64)) -> int {
    if s.1 > 0 {
        8 * s.0 / s.1 as int
    } else {
        0
    }
}

/// Weighted sum of the samples with linearly increasing weights: the sample
/// at position `i` (0-based) has weight `i + 1`, so recent samples count
/// for more.
pub open spec fn spec_weighted_sum(s: Seq<(u64, u64)>) -> int
    decreases s.len(),
{
    if s.len() == 0 {
        0
    } else {
        spec_weighted_sum(s.drop_last()) + s.len() * spec_sample_kbps(s.last())
    }
}

/// Total of the weights 1 + 2 + ... + n.
pub open spec fn spec_weight_total(n: int) -> int {
    n * (n + 1) / 2
}

/// The estimate: weighted average over the samples, saturated to `u32`;
/// 0 when no samples have been recorded.
pub open spec fn spec_estimate_kbps(s: Seq<(u64, u64)>) -> u32 {
    if s.len() == 0 {
        0u32
    } else {
        let avg = spec_weighted_sum(s) / spec_weight_total(s.len() as int);
        if avg > u32::MAX {
            u32::MAX
        } else {
            avg as u32
        }
    }
}

/// Bandwidth estimator that tracks actual transfer speeds over a bounded
/// window of recent samples, evicting the oldest sample first.
pub struct BandwidthEstimator {
    /// Recent samples: (bytes_transferred, duration_ms), oldest first.
    samples: Vec<(u64, u64)>,
    /// Maximum samples to keep.
    max_samples: usize,
}

impl BandwidthEstimator {
    /// All recorded samples, oldest first.
    pub closed spec fn view(&self) -> Seq<(u64, u64)> {
        self.samples@
    }

    /// The bound the estimator was created with, after capping.
    pub closed spec fn spec_max_samples(&self) -> usize {
        self.max_samples
    }

    /// Well-formed: the window is bounded and no sample has a zero duration.
    pub closed spec fn wf(&self) -> bool {
        &&& self.max_samples <= MAX_BANDWIDTH_SAMPLES
        &&& self.samples@.len() <= self.max_samples
        &&& forall|i: int| 0 <= i < self.samples@.len() ==> #[trigger] self.samples@[i].1 > 0
    }

    /// Create an estimator that keeps at most `max_samples` samples
    /// (capped at 50).
    pub fn new(max_samples: usize) -> (r: BandwidthEstimator)
        ensures
            r.wf(),
            r@ =~= Seq::<(u64, u64)>::empty(),
    {
        let cap: usize = if max_samples > MAX_BANDWIDTH_SAMPLES {
            MAX_BANDWIDTH_SAMPLES
        } else {
            max_samples
        };
        BandwidthEstimator { samples: Vec::new(), max_samples: cap }
    }

    /// Record a completed transfer.  A zero-duration sample is ignored;
    /// otherwise the sample is appended, evicting the oldest when the
    /// window is full.
    pub fn record_transfer(&mut self, bytes: u64, duration_ms: u64)
        requires
            old(self).wf(),
        ensures
            final(self).wf(),
            duration_ms == 0 || old(self).spec_max_samples() == 0 ==> final(self)@ =~= old(
                self,
            )@,
            duration_ms > 0 && old(self)@.len() < old(self).spec_max_samples() ==> final(self)@
                =~= old(self)@.push((bytes, duration_ms)),
            duration_ms > 0 && old(self).spec_max_samples() > 0 && old(self)@.len() >= old(
                self,
            ).spec_max_samples() ==> final(self)@ =~= old(self)@.drop_first().push(
                (bytes, duration_ms),
            ),
            final(self).spec_max_samples() == old(self).spec_max_samples(),
    {
        if duration_ms == 0 || self.max_samples == 0 {
            return ;
        }
        if self.samples.len() >= self.max_samples {
            self.samples.remove(0);
        }
        self.samples.push((bytes, duration_ms));
    }

    /// Get estimated bandwidth in Kbps using a weighted moving average:
    /// recent samples have more weight.
    pub fn estimate_kbps(&self) -> (r: u32)
        requires
            self.wf(),
        ensures
            r == spec_estimate_kbps(self@),
    {
        let n: usize = self.samples.len();
        if n == 0 {
            return 0;
        }

        let mut acc: u128 = 0;
        let mut wt: u128 = 0;
        let mut i: usize = 0;
        while i < n
            invariant
                self.wf(),
                n == self.samples@.len(),
                0 <= i <= n,
                acc == spec_weighted_sum(self.samples@.take(i as int)),
                wt == spec_weight_total(i as int),
                acc <= i * 0x200_0000_0000_0000_0000u128,
                wt <= 1275,
            decreases n - i,
        {
            let (bytes, duration_ms) = self.samples[i];
            let kbps: u128 = (8u128 * bytes as u128) / (duration_ms as u128);
            proof {
                assert(self.samples@.take(i + 1).drop_last() =~= self.samples@.take(i as int));
                assert(self.samples@.take(i + 1).last() == self.samples@[i as int]);
                assert(kbps as int <= 8 * (bytes as int)) by (nonlinear_arith)
                    requires
                        kbps as int == 8 * (bytes as int) / (duration_ms as int),
                        duration_ms >= 1;
                assert((i as int + 1) * (kbps as int) <= 0x200_0000_0000_0000_0000)
                    by (nonlinear_arith)
                    requires
                        (kbps as int) < 0x8_0000_0000_0000_0000,
                        i < 50;
                assert(spec_weight_total(i + 1) == spec_weight_total(i as int) + (i + 1))
                    by (nonlinear_arith);
                assert(spec_weight_total(i + 1) <= 1275) by (nonlinear_arith)
                    requires
                        i < 50;
            }
            acc = acc + (i as u128 + 1) * kbps;
            wt = wt + (i as u128 + 1);
            i = i + 1;
        }
        proof {
            assert(self.samples@.take(n as int) =~= self.samples@);
            assert(wt >= 1) by (nonlinear_arith)
                requires
                    wt == spec_weight_total(n as int),
                    1 <= n <= 50;
        }
        let avg: u128 = acc / wt;
        if avg > u32::MAX as u128 {
            u32::MAX
        } else {
            avg as u32
        }
    }

    /// Clear all samples.
    pub fn reset(&mut self)
        requires
            old(self).wf(),
        ensures
            final(self).wf(),
            final(self)@ =~= Seq::<(u64, u64)>::empty(),
            final(self).spec_max_samples() == old(self).spec_max_samples(),
    {
        self.samples.clear();
    }
}

} // verus!
