//! The Sui target: every compiled module, in order, plus the optional init call.
use crate::codec::{copy_bytes, views};
use crate::package::{
    init_call, init_script, package_enc, package_fits, BuildError, Module, Package, PackageModel,
};
use vstd::prelude::*;

verus! {

/// Packages compiled modules for Sui.
pub struct SuiTarget {}

impl Default for SuiTarget {
    fn default() -> (r: SuiTarget)
        ensures
            r == (SuiTarget {}),
    {
        SuiTarget {}
    }
}

/// A built package and its canonical binary form.
pub struct Release {
    pub package: Package,
    pub blob: Vec<u8>,
}

/// What building `units` with `init_function` for Sui gives.
pub open spec fn sui_release(units: Seq<Seq<u8>>, init_function: Seq<char>) -> Result<
    PackageModel,
    BuildError,
> {
    match init_call(init_function) {
        None => Err(BuildError::MalformedInitFunction),
        Some(call) => {
            let p = PackageModel { modules: units, init_script: call };
            if package_fits(p) {
                Ok(p)
            } else {
                Err(BuildError::PackageTooLarge)
            }
        },
    }
}

impl SuiTarget {
    /// Builds the release of the serialized compiled modules `units`, to call
    /// `init_function` on deployment unless it is empty.
    pub fn output(self, units: &Vec<Vec<u8>>, init_function: &str) -> (r: Result<Release, BuildError>)
        ensures
            match sui_release(views(units@), init_function@) {
                Ok(p) => r matches Ok(rel) && rel.package@ == p && rel.blob@ == package_enc(p),
                Err(e) => r matches Err(x) && x == e,
            },
    {
        let mut modules: Vec<Module> = Vec::new();
        let mut k: usize = 0;
        while k < units.len()
            invariant
                k <= units@.len(),
                crate::package::module_views(modules@) == views(units@).subrange(0, k as int),
            decreases units@.len() - k,
        {
            let ghost before = modules@;
            modules.push(Module::new(copy_bytes(&units[k])));
            assert(crate::package::module_views(modules@) =~= crate::package::module_views(
                before,
            ).push(units@[k as int]@));
            assert(views(units@).subrange(0, k + 1) =~= views(units@).subrange(0, k as int).push(
                units@[k as int]@,
            ));
            k = k + 1;
        }
        assert(views(units@).subrange(0, k as int) =~= views(units@));
        let script = match init_script(init_function) {
            Ok(s) => s,
            Err(e) => return Err(e),
        };
        let package = match Package::new(modules, script) {
            Ok(p) => p,
            Err(e) => return Err(e),
        };
        let blob = package.to_bytes();
        Ok(Release { package, blob })
    }
}

} // verus!
