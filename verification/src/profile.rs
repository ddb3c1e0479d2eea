//! Named protocol profiles binding mode, layout, color, ECC and frame sizing.
use vstd::prelude::*;

use crate::descriptor::{ColorEncoding, LayoutFamily};
use crate::error::GlyphError;
use crate::mode::{str_equal, EccLevel, TransmissionMode};

verus! {

/// Named protocol profile.
#[derive(Debug, Clone, Copy, PartialEq, Eq, Hash, Structural)]
pub enum ProfileId {
    /// General physical print profile with a distinctive ribbon-weave visual form.
    RibbonPrint,
    /// Color display profile for dense screen-to-camera transfer.
    SpectralScreen,
    /// High-speed animated optical transfer profile.
    PulseBurst,
    /// Robust label/card profile based on off-corner anchors.
    ConstellationPrint,
    /// Square matrix compatibility baseline for benchmarks only.
    MatrixCompat,
}

/// Stable kebab-case identifier of a profile.
pub open spec fn profile_id_name(id: ProfileId) -> &'static str {
    match id {
        ProfileId::RibbonPrint => "ribbon-print",
        ProfileId::SpectralScreen => "spectral-screen",
        ProfileId::PulseBurst => "pulse-burst",
        ProfileId::ConstellationPrint => "constellation-print",
        ProfileId::MatrixCompat => "matrix-compat",
    }
}

impl ProfileId {
    /// Stable kebab-case identifier.
    pub fn as_str(self) -> (r: &'static str)
        ensures
            r == profile_id_name(self),
    {
        match self {
            ProfileId::RibbonPrint => "ribbon-print",
            ProfileId::SpectralScreen => "spectral-screen",
            ProfileId::PulseBurst => "pulse-burst",
            ProfileId::ConstellationPrint => "constellation-print",
            ProfileId::MatrixCompat => "matrix-compat",
        }
    }

    /// Parse a kebab-case profile identifier.
    pub fn parse_name(value: &str) -> (r: Result<ProfileId, GlyphError>)
        ensures
            forall|id: ProfileId|
                value@ == (#[trigger] profile_id_name(id))@ ==> r == Ok::<ProfileId, GlyphError>(
                    id,
                ),
            (forall|id: ProfileId| value@ != (#[trigger] profile_id_name(id))@) ==> r == Err::<
                ProfileId,
                GlyphError,
            >(GlyphError::InvalidArgument("unknown profile id")),
    {
        proof {
            reveal_strlit("ribbon-print");
            reveal_strlit("spectral-screen");
            reveal_strlit("pulse-burst");
            reveal_strlit("constellation-print");
            reveal_strlit("matrix-compat");
            assert("ribbon-print"@[0] != "spectral-screen"@[0]);
            assert("ribbon-print"@[0] != "pulse-burst"@[0]);
            assert("ribbon-print"@[0] != "constellation-print"@[0]);
            assert("ribbon-print"@[0] != "matrix-compat"@[0]);
            assert("spectral-screen"@[0] != "pulse-burst"@[0]);
            assert("spectral-screen"@[0] != "constellation-print"@[0]);
            assert("spectral-screen"@[0] != "matrix-compat"@[0]);
            assert("pulse-burst"@[0] != "constellation-print"@[0]);
            assert("pulse-burst"@[0] != "matrix-compat"@[0]);
            assert("constellation-print"@[0] != "matrix-compat"@[0]);
            assert(profile_id_name(ProfileId::RibbonPrint) == "ribbon-print");
            assert(profile_id_name(ProfileId::SpectralScreen) == "spectral-screen");
            assert(profile_id_name(ProfileId::PulseBurst) == "pulse-burst");
            assert(profile_id_name(ProfileId::ConstellationPrint) == "constellation-print");
            assert(profile_id_name(ProfileId::MatrixCompat) == "matrix-compat");
        }
        if str_equal(value, "ribbon-print") {
            Ok(ProfileId::RibbonPrint)
        } else if str_equal(value, "spectral-screen") {
            Ok(ProfileId::SpectralScreen)
        } else if str_equal(value, "pulse-burst") {
            Ok(ProfileId::PulseBurst)
        } else if str_equal(value, "constellation-print") {
            Ok(ProfileId::ConstellationPrint)
        } else if str_equal(value, "matrix-compat") {
            Ok(ProfileId::MatrixCompat)
        } else {
            proof {
                assert forall|id: ProfileId| value@ != (#[trigger] profile_id_name(id))@ by {
                    match id {
                        ProfileId::RibbonPrint => {},
                        ProfileId::SpectralScreen => {},
                        ProfileId::PulseBurst => {},
                        ProfileId::ConstellationPrint => {},
                        ProfileId::MatrixCompat => {},
                    }
                }
            }
            Err(GlyphError::InvalidArgument("unknown profile id"))
        }
    }
}

/// Intended use case for a protocol profile.
#[derive(Debug, Clone, Copy, PartialEq, Eq, Structural)]
pub enum UseCase {
    /// Paper, stickers, cards, posters, and packaging.
    Print,
    /// Emissive displays scanned by phones/webcams.
    Screen,
    /// Animated high-speed optical transfer.
    Burst,
    /// Compatibility and benchmark baseline.
    Baseline,
}

/// Benchmark objective for a profile. Rates are in parts per thousand and budgets in
/// whole milliseconds.
#[derive(Debug, Clone, Copy, PartialEq, Eq)]
pub struct BenchmarkTarget {
    /// Payload size used by baseline benchmark vectors.
    pub payload_bytes: usize,
    /// Target decode success rate under the profile's degradation suite, per mille.
    pub decode_success_per_mille: u16,
    /// Target scanner-side decode budget in milliseconds per frame.
    pub max_decode_ms: u32,
    /// Target optical throughput in bytes per second.
    pub target_bytes_per_second: usize,
}

/// Complete profile specification.
#[derive(Debug, Clone, Copy, PartialEq, Eq)]
pub struct ProfileSpec {
    /// Stable identifier.
    pub id: ProfileId,
    /// Human-readable name.
    pub name: &'static str,
    /// Main use case.
    pub use_case: UseCase,
    /// Transmission mode.
    pub mode: TransmissionMode,
    /// Visual layout family.
    pub layout: LayoutFamily,
    /// Color modulation.
    pub color: ColorEncoding,
    /// ECC level.
    pub ecc_level: EccLevel,
    /// Maximum payload bytes per burst frame.
    pub max_frame_payload: usize,
    /// Suggested display frame rate for animated profiles.
    pub target_fps: Option<u16>,
    /// Short implementation note.
    pub note: &'static str,
    /// Benchmark target.
    pub benchmark: BenchmarkTarget,
}

/// The catalog entry of a profile.
pub open spec fn profile_table(id: ProfileId) -> ProfileSpec {
    match id {
        ProfileId::RibbonPrint => ProfileSpec {
            id: ProfileId::RibbonPrint,
            name: "Ribbon Print",
            use_case: UseCase::Print,
            mode: TransmissionMode::Print,
            layout: LayoutFamily::RibbonWeave,
            color: ColorEncoding::Mono,
            ecc_level: EccLevel::High,
            max_frame_payload: 512,
            target_fps: None,
            note: "Default print profile; continuous ribbon strokes avoid QR/Data Matrix confusion.",
            benchmark: BenchmarkTarget {
                payload_bytes: 256,
                decode_success_per_mille: 995,
                max_decode_ms: 25,
                target_bytes_per_second: 0,
            },
        },
        ProfileId::SpectralScreen => ProfileSpec {
            id: ProfileId::SpectralScreen,
            name: "Spectral Screen",
            use_case: UseCase::Screen,
            mode: TransmissionMode::Screen,
            layout: LayoutFamily::SpectralMesh,
            color: ColorEncoding::Rgb,
            ecc_level: EccLevel::Medium,
            max_frame_payload: 1024,
            target_fps: Some(30),
            note: "Color-calibrated screen profile with interleaved colored ribbon lanes.",
            benchmark: BenchmarkTarget {
                payload_bytes: 1024,
                decode_success_per_mille: 990,
                max_decode_ms: 16,
                target_bytes_per_second: 30000,
            },
        },
        ProfileId::PulseBurst => ProfileSpec {
            id: ProfileId::PulseBurst,
            name: "Pulse Burst",
            use_case: UseCase::Burst,
            mode: TransmissionMode::Burst,
            layout: LayoutFamily::PulseStream,
            color: ColorEncoding::Adaptive,
            ecc_level: EccLevel::Adaptive,
            max_frame_payload: 1400,
            target_fps: Some(60),
            note: "Animated high-throughput profile for video/display optical streams.",
            benchmark: BenchmarkTarget {
                payload_bytes: 65536,
                decode_success_per_mille: 985,
                max_decode_ms: 10,
                target_bytes_per_second: 84000,
            },
        },
        ProfileId::ConstellationPrint => ProfileSpec {
            id: ProfileId::ConstellationPrint,
            name: "Constellation Print",
            use_case: UseCase::Print,
            mode: TransmissionMode::Print,
            layout: LayoutFamily::Constellation,
            color: ColorEncoding::LimitedPalette,
            ecc_level: EccLevel::High,
            max_frame_payload: 512,
            target_fps: None,
            note: "Experimental robust print profile with off-corner halo anchors.",
            benchmark: BenchmarkTarget {
                payload_bytes: 384,
                decode_success_per_mille: 997,
                max_decode_ms: 30,
                target_bytes_per_second: 0,
            },
        },
        ProfileId::MatrixCompat => ProfileSpec {
            id: ProfileId::MatrixCompat,
            name: "Matrix Compatibility Baseline",
            use_case: UseCase::Baseline,
            mode: TransmissionMode::Print,
            layout: LayoutFamily::Matrix,
            color: ColorEncoding::Mono,
            ecc_level: EccLevel::High,
            max_frame_payload: 512,
            target_fps: None,
            note: "Square matrix baseline used only for compatibility and comparative benchmarks.",
            benchmark: BenchmarkTarget {
                payload_bytes: 256,
                decode_success_per_mille: 995,
                max_decode_ms: 20,
                target_bytes_per_second: 0,
            },
        },
    }
}

/// Look up a profile spec.
pub fn profile_spec(id: ProfileId) -> (r: ProfileSpec)
    ensures
        r == profile_table(id),
{
    match id {
        ProfileId::RibbonPrint => ProfileSpec {
            id: ProfileId::RibbonPrint,
            name: "Ribbon Print",
            use_case: UseCase::Print,
            mode: TransmissionMode::Print,
            layout: LayoutFamily::RibbonWeave,
            color: ColorEncoding::Mono,
            ecc_level: EccLevel::High,
            max_frame_payload: 512,
            target_fps: None,
            note: "Default print profile; continuous ribbon strokes avoid QR/Data Matrix confusion.",
            benchmark: BenchmarkTarget {
                payload_bytes: 256,
                decode_success_per_mille: 995,
                max_decode_ms: 25,
                target_bytes_per_second: 0,
            },
        },
        ProfileId::SpectralScreen => ProfileSpec {
            id: ProfileId::SpectralScreen,
            name: "Spectral Screen",
            use_case: UseCase::Screen,
            mode: TransmissionMode::Screen,
            layout: LayoutFamily::SpectralMesh,
            color: ColorEncoding::Rgb,
            ecc_level: EccLevel::Medium,
            max_frame_payload: 1024,
            target_fps: Some(30),
            note: "Color-calibrated screen profile with interleaved colored ribbon lanes.",
            benchmark: BenchmarkTarget {
                payload_bytes: 1024,
                decode_success_per_mille: 990,
                max_decode_ms: 16,
                target_bytes_per_second: 30000,
            },
        },
        ProfileId::PulseBurst => ProfileSpec {
            id: ProfileId::PulseBurst,
            name: "Pulse Burst",
            use_case: UseCase::Burst,
            mode: TransmissionMode::Burst,
            layout: LayoutFamily::PulseStream,
            color: ColorEncoding::Adaptive,
            ecc_level: EccLevel::Adaptive,
            max_frame_payload: 1400,
            target_fps: Some(60),
            note: "Animated high-throughput profile for video/display optical streams.",
            benchmark: BenchmarkTarget {
                payload_bytes: 65536,
                decode_success_per_mille: 985,
                max_decode_ms: 10,
                target_bytes_per_second: 84000,
            },
        },
        ProfileId::ConstellationPrint => ProfileSpec {
            id: ProfileId::ConstellationPrint,
            name: "Constellation Print",
            use_case: UseCase::Print,
            mode: TransmissionMode::Print,
            layout: LayoutFamily::Constellation,
            color: ColorEncoding::LimitedPalette,
            ecc_level: EccLevel::High,
            max_frame_payload: 512,
            target_fps: None,
            note: "Experimental robust print profile with off-corner halo anchors.",
            benchmark: BenchmarkTarget {
                payload_bytes: 384,
                decode_success_per_mille: 997,
                max_decode_ms: 30,
                target_bytes_per_second: 0,
            },
        },
        ProfileId::MatrixCompat => ProfileSpec {
            id: ProfileId::MatrixCompat,
            name: "Matrix Compatibility Baseline",
            use_case: UseCase::Baseline,
            mode: TransmissionMode::Print,
            layout: LayoutFamily::Matrix,
            color: ColorEncoding::Mono,
            ecc_level: EccLevel::High,
            max_frame_payload: 512,
            target_fps: None,
            note: "Square matrix baseline used only for compatibility and comparative benchmarks.",
            benchmark: BenchmarkTarget {
                payload_bytes: 256,
                decode_success_per_mille: 995,
                max_decode_ms: 20,
                target_bytes_per_second: 0,
            },
        },
    }
}

/// Return the profile catalog, in identifier order.
pub fn profile_catalog() -> (r: Vec<ProfileSpec>)
    ensures
        r@ == seq![
            profile_table(ProfileId::RibbonPrint),
            profile_table(ProfileId::SpectralScreen),
            profile_table(ProfileId::PulseBurst),
            profile_table(ProfileId::ConstellationPrint),
            profile_table(ProfileId::MatrixCompat),
        ],
{
    let mut v: Vec<ProfileSpec> = Vec::new();
    v.push(profile_spec(ProfileId::RibbonPrint));
    v.push(profile_spec(ProfileId::SpectralScreen));
    v.push(profile_spec(ProfileId::PulseBurst));
    v.push(profile_spec(ProfileId::ConstellationPrint));
    v.push(profile_spec(ProfileId::MatrixCompat));
    assert(v@ =~= seq![
        profile_table(ProfileId::RibbonPrint),
        profile_table(ProfileId::SpectralScreen),
        profile_table(ProfileId::PulseBurst),
        profile_table(ProfileId::ConstellationPrint),
        profile_table(ProfileId::MatrixCompat),
    ]);
    v
}

/// Every catalog entry carries its own identifier, and distinct profiles have distinct
/// names, so each name parses back to its profile.
pub proof fn lemma_profile_ids_consistent(id: ProfileId, other: ProfileId)
    ensures
        profile_table(id).id == id,
        id != other ==> profile_id_name(id)@ != profile_id_name(other)@,
{
    reveal_strlit("ribbon-print");
    reveal_strlit("spectral-screen");
    reveal_strlit("pulse-burst");
    reveal_strlit("constellation-print");
    reveal_strlit("matrix-compat");
    assert("ribbon-print"@[0] != "spectral-screen"@[0]);
    assert("ribbon-print"@[0] != "pulse-burst"@[0]);
    assert("ribbon-print"@[0] != "constellation-print"@[0]);
    assert("ribbon-print"@[0] != "matrix-compat"@[0]);
    assert("spectral-screen"@[0] != "pulse-burst"@[0]);
    assert("spectral-screen"@[0] != "constellation-print"@[0]);
    assert("spectral-screen"@[0] != "matrix-compat"@[0]);
    assert("pulse-burst"@[0] != "constellation-print"@[0]);
    assert("pulse-burst"@[0] != "matrix-compat"@[0]);
    assert("constellation-print"@[0] != "matrix-compat"@[0]);
}

} // verus!
