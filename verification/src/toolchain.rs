//! The native toolchain as the bundler sees it: guidance text for a
//! missing installation, and the count of compile units used to size the
//! build progress display.

use vstd::prelude::*;

verus! {

/// The guidance printed when the native toolchain is missing.
pub open spec fn spec_installation_instructions() -> Seq<char> {
    "\nA Rust toolchain is required to build portable executables.\n\nTo install Rust:\n1. Visit https://rustup.rs/\n2. Follow the installation instructions for your platform\n3. Restart your terminal/command prompt\n4. Verify installation with: rustc --version\n"@
}

/// Manages what the launcher build needs from the native toolchain.
#[derive(Debug)]
pub struct RustToolchain;

impl RustToolchain {
    /// Helpful installation guidance for the user.
    pub fn get_installation_instructions() -> (r: String)
        ensures
            r@ == spec_installation_instructions(),
    {
        String::from_str(
            "\nA Rust toolchain is required to build portable executables.\n\nTo install Rust:\n1. Visit https://rustup.rs/\n2. Follow the installation instructions for your platform\n3. Restart your terminal/command prompt\n4. Verify installation with: rustc --version\n",
        )
    }
}

/// What one build target of a package is.
#[derive(Debug, Clone, Copy, PartialEq, Eq, Structural)]
pub struct TargetKinds {
    pub custom_build: bool,
    pub proc_macro: bool,
    pub lib: bool,
    pub bin: bool,
}

/// One package of the launcher build's dependency graph, reduced to what
/// the progress estimate needs.
#[derive(Debug)]
pub struct PackageTargets {
    pub is_root: bool,
    pub targets: Vec<TargetKinds>,
}

/// Whether one target is compiled as a unit of its own: build scripts,
/// procedural macros and libraries always, binaries only for the root
/// package.
pub open spec fn spec_target_unit(t: TargetKinds, is_root: bool) -> nat {
    if t.custom_build || t.proc_macro || t.lib || (is_root && t.bin) {
        1
    } else {
        0
    }
}

/// The compile units of one package.
pub open spec fn spec_pkg_units(targets: Seq<TargetKinds>, is_root: bool) -> nat
    decreases targets.len(),
{
    if targets.len() == 0 {
        0
    } else {
        spec_pkg_units(targets.drop_last(), is_root) + spec_target_unit(targets.last(), is_root)
    }
}

/// The compile units of the whole graph.
pub open spec fn spec_total_units(packages: Seq<PackageTargets>) -> nat
    decreases packages.len(),
{
    if packages.len() == 0 {
        0
    } else {
        spec_total_units(packages.drop_last()) + spec_pkg_units(
            packages.last().targets@,
            packages.last().is_root,
        )
    }
}

/// Count the compile units the launcher build will process: build
/// scripts, procedural macros and libraries of every package, binaries
/// of the root package alone.  An astronomically large graph saturates.
pub fn count_compile_units(packages: &Vec<PackageTargets>) -> (r: u64)
    ensures
        spec_total_units(packages@) <= u64::MAX ==> r == spec_total_units(packages@),
        r <= spec_total_units(packages@),
{
    let mut count: u64 = 0;
    let mut i: usize = 0;
    proof {
        assert(packages@.subrange(0, 0) =~= Seq::<PackageTargets>::empty());
    }
    while i < packages.len()
        invariant
            i <= packages@.len(),
            spec_total_units(packages@.subrange(0, i as int)) <= u64::MAX ==> count
                == spec_total_units(packages@.subrange(0, i as int)),
            count <= spec_total_units(packages@.subrange(0, i as int)),
        decreases packages@.len() - i,
    {
        let pkg = &packages[i];
        let mut j: usize = 0;
        let ghost outer_before = spec_total_units(packages@.subrange(0, i as int));
        while j < pkg.targets.len()
            invariant
                j <= pkg.targets@.len(),
                i < packages@.len(),
                pkg == &packages@[i as int],
                outer_before == spec_total_units(packages@.subrange(0, i as int)),
                outer_before + spec_pkg_units(pkg.targets@.subrange(0, j as int), pkg.is_root)
                    <= u64::MAX ==> count == outer_before + spec_pkg_units(
                    pkg.targets@.subrange(0, j as int),
                    pkg.is_root,
                ),
                count <= outer_before + spec_pkg_units(
                    pkg.targets@.subrange(0, j as int),
                    pkg.is_root,
                ),
            decreases pkg.targets@.len() - j,
        {
            let t = &pkg.targets[j];
            let inc: u64 = if t.custom_build || t.proc_macro || t.lib || (pkg.is_root && t.bin) {
                1
            } else {
                0
            };
            proof {
                assert(pkg.targets@.subrange(0, j as int + 1).drop_last() =~= pkg.targets@.subrange(
                    0,
                    j as int,
                ));
                assert(pkg.targets@.subrange(0, j as int + 1).last() == pkg.targets@[j as int]);
            }
            if count < u64::MAX {
                count = count + inc;
            }
            j = j + 1;
        }
        proof {
            assert(pkg.targets@.subrange(0, pkg.targets@.len() as int) =~= pkg.targets@);
            assert(packages@.subrange(0, i as int + 1).drop_last() =~= packages@.subrange(
                0,
                i as int,
            ));
            assert(packages@.subrange(0, i as int + 1).last() == packages@[i as int]);
        }
        i = i + 1;
    }
    proof {
        assert(packages@.subrange(0, packages@.len() as int) =~= packages@);
    }
    count
}

/// The progress total actually shown: the counted units, or, when the
/// count came out empty, the number of resolved graph nodes, and never
/// less than one.
pub fn total_units_or_fallback(units: u64, nodes: u64) -> (r: u64)
    ensures
        units > 0 ==> r == units,
        units == 0 && nodes > 0 ==> r == nodes,
        units == 0 && nodes == 0 ==> r == 1,
{
    if units > 0 {
        units
    } else if nodes > 0 {
        nodes
    } else {
        1
    }
}

} // verus!
