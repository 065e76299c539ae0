//! Where data packages are cached on disk, and which cached ones are good.

use vstd::prelude::*;
use vstd::string::StringExecFns;

use crate::room::GameData;
use crate::text::{decimal, joined, law_numerals_differ, push_decimal, str_eq};

verus! {

broadcast use vstd::string::group_string_axioms;

/// The file name that `sanitise_file_name` makes of a text, with the two
/// options that are not left at their defaults.
pub uninterp spec fn sanitised(
    name: Seq<char>,
    normalise_whitespace: bool,
    replace_with: Option<char>,
) -> Seq<char>;

/// `sanitise_file_name::sanitise_with_options`, with its default options but
/// for the two that are given: a function of the name and of these.
#[verifier::external_body]
fn sanitise(name: &str, normalise_whitespace: bool, replace_with: Option<char>) -> (r: String)
    ensures
        r@ == sanitised(name@, normalise_whitespace, replace_with),
{
    sanitise_file_name::sanitise_with_options(
        name,
        &sanitise_file_name::Options {
            normalise_whitespace,
            replace_with,
            ..sanitise_file_name::Options::DEFAULT
        },
    )
}

/// `rand::random` for a 32-bit number. Nothing is claimed of the number. The
/// call panics where the system has no source of randomness.
#[verifier::external_body]
fn random_number() -> (r: u32) {
    rand::random::<u32>()
}

/// The number that a generator gives.
fn draw<F: Fn() -> u32>(generator: F) -> (r: u32)
    requires
        call_requires(generator, ()),
    ensures
        call_ensures(generator, (), r),
{
    generator()
}

/// Whether `n` is a number that the random generator gives.
pub closed spec fn drawn(n: u32) -> bool {
    call_ensures(random_number, (), n)
}

/// The name that a text has in the cache: unfit characters are left out, and
/// whitespace stays as it is.
pub open spec fn file_name(name: Seq<char>) -> Seq<char> {
    sanitised(name, false, None)
}

/// The name that a text has in the cache.
pub fn sanitize_file_name(name: &str) -> (r: String)
    ensures
        r@ == file_name(name@),
{
    sanitise(name, false, None)
}

/// The place of a data package below the cache directory.
#[derive(Debug, Clone)]
pub struct PackagePlace {
    pub dir: String,
    pub file: String,
}

/// The place of the data package of a game with a checksum.
pub fn package_place(game: &str, checksum: &str) -> (r: PackagePlace)
    ensures
        r.dir@ == file_name(game@),
        r.file@ == file_name(checksum@ + ".json"@),
{
    let named = joined(checksum, ".json");
    PackagePlace {
        dir: sanitize_file_name(game),
        file: sanitize_file_name(named.as_str()),
    }
}

/// Whether a cached data package is the one that is asked for.
pub fn package_is_good(data: &GameData, checksum: &str) -> (r: bool)
    ensures
        r == (data.checksum@ == checksum@),
{
    str_eq(data.checksum.as_str(), checksum)
}

/// The name of the file that a new version is written to before it takes the
/// place of the old one.
pub open spec fn temporary_name(stem: Seq<char>, extension: Option<Seq<char>>, n: nat) -> Seq<char> {
    stem + "-tmp-"@ + decimal(n) + match extension {
        Some(extension) => extension,
        None => Seq::empty(),
    }
}

/// What an optional text says.
pub open spec fn text_of(text: Option<&str>) -> Option<Seq<char>> {
    match text {
        Some(text) => Some(text@),
        None => None,
    }
}

/// The temporary name with a given number.
pub fn temp_name(stem: &str, extension: Option<&str>, n: u32) -> (r: String)
    ensures
        r@ == temporary_name(
            stem@,
            text_of(extension),
            n as nat,
        ),
{
    let mut out = joined(stem, "-tmp-");
    push_decimal(&mut out, n as u64);
    if let Some(extension) = extension {
        out.append(extension);
    }
    assert(out@ =~= temporary_name(
        stem@,
        text_of(extension),
        n as nat,
    ));
    out
}

/// A temporary name with a random number.
pub fn random_temp_name(stem: &str, extension: Option<&str>) -> (r: String)
    ensures
        exists|n: u32| #[trigger]
            drawn(n) && r@ == temporary_name(stem@, text_of(extension), n as nat),
{
    let n: u32 = draw(random_number);
    assert(drawn(n));
    temp_name(stem, extension, n)
}

/// The platforms that have a directory for caches.
#[derive(Debug, Clone, Copy, PartialEq, Eq, Structural)]
pub enum CachePlatform {
    Windows,
    MacOs,
    Linux,
}

/// The directory that the cache lies under.
#[derive(Debug, Clone, Copy, PartialEq, Eq, Structural)]
pub enum CacheBase {
    /// What the platform's environment variable names.
    Variable,
    Home,
    WorkingDirectory,
}

/// The base directory of the cache: what the variable names; else, on Linux,
/// the home directory; else the working directory.
pub open spec fn cache_base(platform: CachePlatform, variable: bool, home: bool) -> CacheBase {
    if variable {
        CacheBase::Variable
    } else if platform == CachePlatform::Linux && home {
        CacheBase::Home
    } else {
        CacheBase::WorkingDirectory
    }
}

/// The directories that lead from the base to the cache.
pub open spec fn cache_steps(platform: CachePlatform, base: CacheBase) -> Seq<Seq<char>> {
    match base {
        CacheBase::Variable => if platform == CachePlatform::MacOs {
            seq!["Library"@, "Caches"@, "Archipelago"@, "Cache"@, "datapackage"@]
        } else {
            seq!["Archipelago"@, "Cache"@, "datapackage"@]
        },
        CacheBase::Home => seq![".cache"@, "Archipelago"@, "Cache"@, "datapackage"@],
        CacheBase::WorkingDirectory => seq!["Archipelago"@, "Cache"@, "datapackage"@],
    }
}

/// Where the cache lies: the base directory, and the directories that lead from
/// it to the cache.
pub fn cache_path(platform: CachePlatform, variable: bool, home: bool) -> (r: (
    CacheBase,
    Vec<&'static str>,
))
    ensures
        r.0 == cache_base(platform, variable, home),
        r.1@.map_values(|s: &'static str| s@) == cache_steps(platform, r.0),
{
    let base = if variable {
        CacheBase::Variable
    } else if home && platform == CachePlatform::Linux {
        CacheBase::Home
    } else {
        CacheBase::WorkingDirectory
    };
    let mut steps: Vec<&'static str> = Vec::new();
    if variable && platform == CachePlatform::MacOs {
        steps.push("Library");
        steps.push("Caches");
    } else if base == CacheBase::Home {
        steps.push(".cache");
    }
    steps.push("Archipelago");
    steps.push("Cache");
    steps.push("datapackage");
    assert(steps@.map_values(|s: &'static str| s@) =~= cache_steps(platform, base));
    (base, steps)
}

/// A package lies in a directory that is named after its game, in a file that is
/// named after its checksum; unfit characters are left out of both, and whitespace
/// stays.
pub proof fn law_place_of_a_package(game: &str, checksum: &str, r: PackagePlace)
    requires
        call_ensures(package_place, (game, checksum), r),
    ensures
        r.dir@ == sanitised(game@, false, None),
        r.file@ == sanitised(checksum@ + ".json"@, false, None),
{
}

/// A cached package is good exactly where its own checksum is the one that is asked
/// for, and a file is named as a package's directory is.
pub proof fn law_good_packages(data: &GameData, checksum: &str, r: bool, name: &str, file: String)
    requires
        call_ensures(package_is_good, (data, checksum), r),
        call_ensures(sanitize_file_name, (name,), file),
    ensures
        r == (data.checksum@ == checksum@),
        file@ == sanitised(name@, false, None),
{
}

/// A temporary name starts with that of the file, says that it is temporary, has
/// its number, and ends as the file does. Different numbers make different names.
pub proof fn law_temporary_names_differ(
    stem: &str,
    extension: Option<&str>,
    n: u32,
    m: u32,
    a: String,
    b: String,
)
    requires
        call_ensures(temp_name, (stem, extension, n), a),
        call_ensures(temp_name, (stem, extension, m), b),
    ensures
        extension is None ==> a@ == stem@ + "-tmp-"@ + decimal(n as nat),
        extension is Some ==> a@ == stem@ + "-tmp-"@ + decimal(n as nat) + extension->Some_0@,
        n != m ==> a@ != b@,
{
    let front = stem@ + "-tmp-"@;
    let end = match extension {
        Some(text) => text@,
        None => Seq::<char>::empty(),
    };
    let x = decimal(n as nat);
    let y = decimal(m as nat);
    assert(a@ =~= front + x + end);
    assert(b@ =~= front + y + end);
    if extension is None {
        assert(a@ =~= front + x);
    }
    if n != m {
        law_numerals_differ(n as nat, m as nat);
        if a@ == b@ {
            assert(x.len() == y.len());
            assert(a@.subrange(front.len() as int, (front.len() + x.len()) as int) =~= x);
            assert(b@.subrange(front.len() as int, (front.len() + y.len()) as int) =~= y);
        }
    }
}

/// Where the cache lies: under what the platform's variable names; without it, on
/// Linux under the home directory; and else under the working directory. The last
/// directories are the same everywhere.
pub proof fn law_where_the_cache_lies(
    platform: CachePlatform,
    variable: bool,
    home: bool,
    r: (CacheBase, Vec<&'static str>),
)
    requires
        call_ensures(cache_path, (platform, variable, home), r),
    ensures
        variable ==> r.0 is Variable,
        !variable && home && platform is Linux ==> r.0 is Home,
        !variable && !(home && platform is Linux) ==> r.0 is WorkingDirectory,
        ({
            let steps = r.1@;
            let n = steps.len() as int;
            &&& n >= 3
            &&& steps[n - 3]@ == "Archipelago"@
            &&& steps[n - 2]@ == "Cache"@
            &&& steps[n - 1]@ == "datapackage"@
            &&& r.0 is Variable && platform is MacOs ==> n == 5 && steps[0]@ == "Library"@
                && steps[1]@ == "Caches"@
            &&& r.0 is Home ==> n == 4 && steps[0]@ == ".cache"@
            &&& !(r.0 is Home) && !(r.0 is Variable && platform is MacOs) ==> n == 3
        }),
{
    let steps = r.1@;
    let said = steps.map_values(|s: &'static str| s@);
    assert(said.len() == steps.len());
    assert forall|i: int| 0 <= i < steps.len() implies said[i] == (#[trigger] steps[i])@ by {}
}

/// A random temporary name is the one with a number that the generator has given.
pub proof fn law_random_name_has_a_drawn_number(stem: &str, extension: Option<&str>, r: String)
    requires
        call_ensures(random_temp_name, (stem, extension), r),
    ensures
        exists|n: u32| #[trigger]
            drawn(n) && r@ == stem@ + "-tmp-"@ + decimal(n as nat) + (match extension {
                Some(text) => text@,
                None => ""@,
            }),
{
    reveal_strlit("");
    let n = choose|n: u32| #[trigger]
        drawn(n) && r@ == temporary_name(stem@, text_of(extension), n as nat);
    assert(r@ =~= stem@ + "-tmp-"@ + decimal(n as nat) + (match extension {
        Some(text) => text@,
        None => ""@,
    }));
}

} // verus!
