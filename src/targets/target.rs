//! Target identifiers and the dispatch of a build over the requested targets.
use crate::codec::views;
use crate::package::{package_enc, BuildError};
use crate::targets::sui::{sui_release, Release, SuiTarget};
use vstd::prelude::*;

verus! {

/// A target named in a build request.
#[derive(Debug, Clone, Copy, PartialEq, Eq, Structural)]
pub enum TargetType {
    Sui,
    Unknown,
}

/// The target that `name` identifies.
pub open spec fn target_of(name: Seq<char>) -> TargetType {
    if name == "sui"@ {
        TargetType::Sui
    } else {
        TargetType::Unknown
    }
}

/// The printed name of a target.
pub open spec fn target_name(t: TargetType) -> Seq<char> {
    match t {
        TargetType::Sui => "sui"@,
        TargetType::Unknown => "unknown"@,
    }
}

impl TargetType {
    /// The target that `name` identifies; anything but `sui` is unknown.
    pub fn from_name(name: &str) -> (r: TargetType)
        ensures
            r == target_of(name@),
    {
        proof {
            reveal_strlit("sui");
        }
        if name.unicode_len() == 3 && name.get_char(0) == 's' && name.get_char(1) == 'u'
            && name.get_char(2) == 'i' {
            assert(name@ =~= "sui"@);
            TargetType::Sui
        } else {
            TargetType::Unknown
        }
    }

    /// The target's printed name.
    pub fn to_string(&self) -> (r: String)
        ensures
            r@ == target_name(*self),
    {
        match self {
            TargetType::Sui => String::from_str("sui"),
            TargetType::Unknown => String::from_str("unknown"),
        }
    }
}

impl From<String> for TargetType {
    fn from(target_type: String) -> TargetType {
        TargetType::from_name(target_type.as_str())
    }
}

impl vstd::std_specs::convert::FromSpecImpl<String> for TargetType {
    open spec fn obeys_from_spec() -> bool {
        true
    }

    open spec fn from_spec(v: String) -> TargetType {
        target_of(v@)
    }
}

/// The release built for one target, and the directory it goes to under `target/`.
pub struct TargetOutput {
    pub target: TargetType,
    pub dir: String,
    pub release: Release,
}

/// The releases built, in request order, and the error that stopped the build, if any.
pub struct Dispatch {
    pub outputs: Vec<TargetOutput>,
    pub error: Option<BuildError>,
}

/// Where a build over `ts` from position `i` on stops: the first unknown target, or,
/// when building fails (`ok` false), the first target at all; `ts.len()` if none.
pub open spec fn stop_index(ts: Seq<TargetType>, ok: bool, i: int) -> int
    decreases ts.len() - i,
{
    if i < 0 || i >= ts.len() {
        ts.len() as int
    } else if ts[i] == TargetType::Unknown || !ok {
        i
    } else {
        stop_index(ts, ok, i + 1)
    }
}

/// A build that names an unknown target builds nothing for it or for any target after
/// it.
pub proof fn lemma_unknown_target_halts(ts: Seq<TargetType>, ok: bool, u: int)
    requires
        0 <= u < ts.len(),
        ts[u] == TargetType::Unknown,
    ensures
        stop_index(ts, ok, 0) <= u,
{
    lemma_stop_stays_before(ts, ok, 0, u);
}

proof fn lemma_stop_stays_before(ts: Seq<TargetType>, ok: bool, i: int, u: int)
    requires
        0 <= i <= u < ts.len(),
        ts[u] == TargetType::Unknown,
    ensures
        stop_index(ts, ok, i) <= u,
    decreases u - i,
{
    if i < u && ts[i] != TargetType::Unknown && ok {
        lemma_stop_stays_before(ts, ok, i + 1, u);
    }
}

/// Builds `units` for each of `target_types` in order, stopping at the first target
/// that is unknown or whose build fails.
pub fn output(units: &Vec<Vec<u8>>, target_types: &Vec<TargetType>, init_function: &str) -> (r:
    Dispatch)
    ensures
        ({
            let built = sui_release(views(units@), init_function@);
            let stop = stop_index(target_types@, built is Ok, 0);
            &&& r.outputs@.len() == stop
            &&& forall|k: int|
                0 <= k < stop ==> {
                    let o = #[trigger] r.outputs@[k];
                    &&& o.target == TargetType::Sui
                    &&& o.dir@ == "sui"@
                    &&& o.release.package@ == built->Ok_0
                    &&& o.release.blob@ == package_enc(built->Ok_0)
                }
            &&& r.error == if stop >= target_types@.len() {
                None
            } else if target_types@[stop] == TargetType::Unknown {
                Some(BuildError::UnsupportedTarget)
            } else {
                Some(built->Err_0)
            }
        }),
{
    let ghost built = sui_release(views(units@), init_function@);
    let mut outputs: Vec<TargetOutput> = Vec::new();
    let mut k: usize = 0;
    while k < target_types.len()
        invariant
            k <= target_types@.len(),
            built == sui_release(views(units@), init_function@),
            stop_index(target_types@, built is Ok, 0) == stop_index(target_types@, built is Ok, k as int),
            outputs@.len() == k,
            forall|m: int|
                0 <= m < k ==> {
                    let o = #[trigger] outputs@[m];
                    &&& o.target == TargetType::Sui
                    &&& o.dir@ == "sui"@
                    &&& o.release.package@ == built->Ok_0
                    &&& o.release.blob@ == package_enc(built->Ok_0)
                },
        decreases target_types@.len() - k,
    {
        match target_types[k] {
            TargetType::Sui => {
                let target = SuiTarget::default();
                match target.output(units, init_function) {
                    Ok(release) => {
                        outputs.push(TargetOutput { target: TargetType::Sui, dir: TargetType::Sui.to_string(), release });
                    },
                    Err(e) => {
                        return Dispatch { outputs, error: Some(e) };
                    },
                }
            },
            TargetType::Unknown => {
                return Dispatch { outputs, error: Some(BuildError::UnsupportedTarget) };
            },
        }
        k = k + 1;
    }
    Dispatch { outputs, error: None }
}

} // verus!
