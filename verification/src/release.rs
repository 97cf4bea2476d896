//! Which prebuilt engine is fetched, and how it is unpacked.

use crate::json::{Json, JsonV, jsons, lemma_view};
use crate::pathname::{join_path, under};
use crate::text::{begins, contains, ends, ends_with, holds, starts_with, strings};
use vstd::prelude::*;
use vstd::string::*;

verus! {

#[derive(Debug, Clone, Copy, PartialEq, Eq, Structural)]
pub enum Platform {
    Windows,
    MacOs,
    Linux,
}

#[derive(Debug)]
pub struct BuildOptions {
    pub pin: Option<String>,
    pub clean: bool,
    pub allow_cuda_132: bool,
    pub allow_unsupported_compiler: bool,
}

/// What is looked for among the files of a release.
#[derive(Debug, Clone, Copy, PartialEq, Eq, Structural)]
pub enum Wanted {
    WinCuda13,
    WinCuda12,
    CudaRuntime13,
    CudaRuntime12,
    MacArm,
    MacAny,
    Linux,
}

/// The file of that name is what is looked for.
pub open spec fn suits(w: Wanted, n: Seq<char>) -> bool {
    match w {
        Wanted::WinCuda13 => begins(n, "llama-"@) && holds(n, "bin-win-cuda"@) && holds(n, "13."@) && ends(
            n,
            "-x64.zip"@,
        ),
        Wanted::WinCuda12 => begins(n, "llama-"@) && holds(n, "bin-win-cuda"@) && holds(n, "12."@) && ends(
            n,
            "-x64.zip"@,
        ),
        Wanted::CudaRuntime13 => begins(n, "cudart-llama-bin-win-cuda"@) && holds(n, "13."@) && ends(n, "-x64.zip"@),
        Wanted::CudaRuntime12 => begins(n, "cudart-llama-bin-win-cuda"@) && holds(n, "12."@) && ends(n, "-x64.zip"@),
        Wanted::MacArm => begins(n, "llama-"@) && holds(n, "bin-macos-arm64"@),
        Wanted::MacAny => begins(n, "llama-"@) && holds(n, "bin-macos"@),
        Wanted::Linux => begins(n, "llama-"@) && (holds(n, "bin-ubuntu-x64"@) || holds(n, "bin-linux-x64"@)),
    }
}

fn suits_name(w: Wanted, n: &str) -> (r: bool)
    ensures
        r == suits(w, n@),
{
    match w {
        Wanted::WinCuda13 => starts_with(n, "llama-") && contains(n, "bin-win-cuda") && contains(n, "13.") && ends_with(
            n,
            "-x64.zip",
        ),
        Wanted::WinCuda12 => starts_with(n, "llama-") && contains(n, "bin-win-cuda") && contains(n, "12.") && ends_with(
            n,
            "-x64.zip",
        ),
        Wanted::CudaRuntime13 => starts_with(n, "cudart-llama-bin-win-cuda") && contains(n, "13.") && ends_with(
            n,
            "-x64.zip",
        ),
        Wanted::CudaRuntime12 => starts_with(n, "cudart-llama-bin-win-cuda") && contains(n, "12.") && ends_with(
            n,
            "-x64.zip",
        ),
        Wanted::MacArm => starts_with(n, "llama-") && contains(n, "bin-macos-arm64"),
        Wanted::MacAny => starts_with(n, "llama-") && contains(n, "bin-macos"),
        Wanted::Linux => starts_with(n, "llama-") && (contains(n, "bin-ubuntu-x64") || contains(n, "bin-linux-x64")),
    }
}

/// The name and the address of a file of a release, where it is what is looked for.
pub open spec fn offered(asset: JsonV, w: Wanted) -> Option<(Seq<char>, Seq<char>)> {
    match (asset.get_str("name"@), asset.get_str("browser_download_url"@)) {
        (Some(n), Some(u)) => if suits(w, n) {
            Some((n, u))
        } else {
            None
        },
        _ => None,
    }
}

/// The first file from place `i` on that is what is looked for.
pub open spec fn pick_from(assets: Seq<JsonV>, w: Wanted, i: int) -> Option<(Seq<char>, Seq<char>)>
    decreases assets.len() - i,
{
    if i < 0 || i >= assets.len() {
        None
    } else {
        match offered(assets[i], w) {
            Some(x) => Some(x),
            None => pick_from(assets, w, i + 1),
        }
    }
}

/// The files that are fetched: the engine, and on Windows the runtime that goes with
/// it. The newer CUDA goes first, and the archive for Apple's own processors.
pub open spec fn picked(assets: Seq<JsonV>, p: Platform) -> (Option<(Seq<char>, Seq<char>)>, Option<
    (Seq<char>, Seq<char>),
>) {
    match p {
        Platform::Windows => {
            let bin = match pick_from(assets, Wanted::WinCuda13, 0) {
                Some(x) => Some(x),
                None => pick_from(assets, Wanted::WinCuda12, 0),
            };
            match bin {
                Some(b) => (
                    Some(b),
                    pick_from(
                        assets,
                        if holds(b.0, "13."@) {
                            Wanted::CudaRuntime13
                        } else {
                            Wanted::CudaRuntime12
                        },
                        0,
                    ),
                ),
                None => (None, None),
            }
        },
        Platform::MacOs => (
            match pick_from(assets, Wanted::MacArm, 0) {
                Some(x) => Some(x),
                None => pick_from(assets, Wanted::MacAny, 0),
            },
            None,
        ),
        Platform::Linux => (pick_from(assets, Wanted::Linux, 0), None),
    }
}

pub open spec fn pair_view(p: Option<(String, String)>) -> Option<(Seq<char>, Seq<char>)> {
    match p {
        Some((a, b)) => Some((a@, b@)),
        None => None,
    }
}

fn pick(assets: &Vec<Json>, w: Wanted) -> (r: Option<(String, String)>)
    ensures
        pair_view(r) == pick_from(jsons(assets@), w, 0),
{
    let ghost av = jsons(assets@);
    let mut i: usize = 0;
    while i < assets.len()
        invariant
            i <= assets.len(),
            av == jsons(assets@),
            pick_from(av, w, 0) == pick_from(av, w, i as int),
        decreases assets.len() - i,
    {
        assert(av[i as int] == assets@[i as int]@);
        if let Some(n) = assets[i].get_str("name") {
            if suits_name(w, n) {
                if let Some(u) = assets[i].get_str("browser_download_url") {
                    return Some((n.to_owned(), u.to_owned()));
                }
            }
        }
        i += 1;
    }
    None
}

/// Picks the files to fetch out of a release. The result is none where the release
/// lists no files; the engine is none where none of them suits.
pub fn pick_assets(release: &Json, p: Platform) -> (r: Option<(Option<(String, String)>, Option<(String, String)>)>)
    ensures
        match release@.get("assets"@) {
            Some(JsonV::Array(assets)) => r matches Some(x) && (pair_view(x.0), pair_view(x.1)) == picked(assets, p),
            _ => r is None,
        },
{
    let list = match release.get("assets") {
        Some(l) => l,
        None => {
            return None;
        },
    };
    proof {
        lemma_view(*list);
    }
    if let Json::Array(assets) = list {
        match p {
            Platform::Windows => {
                let bin = match pick(assets, Wanted::WinCuda13) {
                    Some(x) => Some(x),
                    None => pick(assets, Wanted::WinCuda12),
                };
                match bin {
                    Some(b) => {
                        let w = if contains(b.0.as_str(), "13.") {
                            Wanted::CudaRuntime13
                        } else {
                            Wanted::CudaRuntime12
                        };
                        let rt = pick(assets, w);
                        Some((Some(b), rt))
                    },
                    None => Some((None, None)),
                }
            },
            Platform::MacOs => {
                let bin = match pick(assets, Wanted::MacArm) {
                    Some(x) => Some(x),
                    None => pick(assets, Wanted::MacAny),
                };
                Some((bin, None))
            },
            Platform::Linux => Some((pick(assets, Wanted::Linux), None)),
        }
    } else {
        None
    }
}


/// The archive is a compressed tar file.
pub open spec fn is_tarball(archive: Seq<char>) -> bool {
    ends(archive, ".tar.gz"@) || ends(archive, ".tgz"@)
}

/// The command that unpacks an archive into a directory: `tar` for a tarball, else
/// `unzip`.
pub fn extract_command(archive: &str, dir: &str) -> (r: (String, Vec<String>))
    ensures
        if is_tarball(archive@) {
            r.0@ == "tar"@ && strings(r.1@) == seq!["-xzf"@, archive@, "-C"@, dir@]
        } else {
            r.0@ == "unzip"@ && strings(r.1@) == seq!["-o"@, archive@, "-d"@, dir@]
        },
{
    let mut args: Vec<String> = Vec::new();
    if ends_with(archive, ".tar.gz") || ends_with(archive, ".tgz") {
        args.push("-xzf".to_owned());
        args.push(archive.to_owned());
        args.push("-C".to_owned());
        args.push(dir.to_owned());
        assert(strings(args@) =~= seq!["-xzf"@, archive@, "-C"@, dir@]);
        ("tar".to_owned(), args)
    } else {
        args.push("-o".to_owned());
        args.push(archive.to_owned());
        args.push("-d".to_owned());
        args.push(dir.to_owned());
        assert(strings(args@) =~= seq!["-o"@, archive@, "-d"@, dir@]);
        ("unzip".to_owned(), args)
    }
}

/// The arguments of the build script: the script, the source directory, and the
/// revision where one is pinned, by the options first, else by the configuration.
pub fn build_arguments(script: &str, dir: &str, opts: &BuildOptions, configured_pin: &str) -> (r: Vec<String>)
    ensures
        ({
            let pin = match opts.pin {
                Some(p) => p@,
                None => configured_pin@,
            };
            strings(r@) == seq![script@, dir@] + (if pin.len() > 0 {
                seq![pin]
            } else {
                Seq::empty()
            })
        }),
{
    let pin = match &opts.pin {
        Some(p) => p.clone(),
        None => configured_pin.to_owned(),
    };
    let mut args: Vec<String> = Vec::new();
    args.push(script.to_owned());
    args.push(dir.to_owned());
    assert(strings(args@) =~= seq![script@, dir@]);
    if !pin.as_str().is_empty() {
        args.push(pin);
        assert(strings(args@) =~= seq![script@, dir@] + seq![pin@]);
    } else {
        assert(strings(args@) =~= seq![script@, dir@] + Seq::<Seq<char>>::empty());
    }
    args
}

/// A word of a command line, where it is wanted.
pub open spec fn word_if(cond: bool, word: Seq<char>) -> Seq<Seq<char>> {
    if cond {
        seq![word]
    } else {
        Seq::empty()
    }
}

/// A switch of a command line and its value, where there is a value.
pub open spec fn switch_if(name: Seq<char>, value: Seq<char>) -> Seq<Seq<char>> {
    if value.len() > 0 {
        seq![name, value]
    } else {
        Seq::empty()
    }
}

/// The arguments with which PowerShell runs the build script.
pub open spec fn windows_arguments(
    script: Seq<char>,
    dir: Seq<char>,
    pin: Seq<char>,
    cuda_path: Seq<char>,
    cuda_arch: Seq<char>,
    o: BuildOptions,
) -> Seq<Seq<char>> {
    seq!["-NoProfile"@, "-NonInteractive"@, "-ExecutionPolicy"@, "Bypass"@, "-File"@, script, "-Dir"@, dir] + switch_if(
        "-Pin"@,
        pin,
    ) + switch_if("-CudaPath"@, cuda_path) + seq!["-CudaArch"@, cuda_arch] + word_if(o.clean, "-Clean"@) + word_if(
        o.allow_cuda_132,
        "-AllowCuda132"@,
    ) + word_if(o.allow_unsupported_compiler, "-AllowUnsupportedCompiler"@)
}

fn add_word(v: &mut Vec<String>, word: &str)
    ensures
        strings(final(v)@) == strings(old(v)@).push(word@),
{
    let ghost b = v@;
    v.push(word.to_owned());
    assert(strings(v@) =~= strings(b).push(word@));
}

fn add_switch(v: &mut Vec<String>, name: &str, value: &str)
    ensures
        strings(final(v)@) == strings(old(v)@) + switch_if(name@, value@),
{
    let ghost b = strings(v@);
    if !value.is_empty() {
        add_word(v, name);
        add_word(v, value);
    }
    assert(strings(v@) =~= b + switch_if(name@, value@));
}

fn add_word_if(v: &mut Vec<String>, cond: bool, word: &str)
    ensures
        strings(final(v)@) == strings(old(v)@) + word_if(cond, word@),
{
    let ghost b = strings(v@);
    if cond {
        add_word(v, word);
    }
    assert(strings(v@) =~= b + word_if(cond, word@));
}

/// The arguments of PowerShell for the build script. The revision is that of the options,
/// else that of the configuration.
pub fn build_arguments_windows(
    script: &str,
    dir: &str,
    opts: &BuildOptions,
    configured_pin: &str,
    cuda_path: &str,
    cuda_arch: &str,
) -> (r: Vec<String>)
    ensures
        strings(r@) == windows_arguments(
            script@,
            dir@,
            match opts.pin {
                Some(p) => p@,
                None => configured_pin@,
            },
            cuda_path@,
            cuda_arch@,
            *opts,
        ),
{
    let pin = match &opts.pin {
        Some(p) => p.clone(),
        None => configured_pin.to_owned(),
    };
    let mut v = vec![
        "-NoProfile".to_owned(),
        "-NonInteractive".to_owned(),
        "-ExecutionPolicy".to_owned(),
        "Bypass".to_owned(),
        "-File".to_owned(),
        script.to_owned(),
        "-Dir".to_owned(),
        dir.to_owned(),
    ];
    assert(strings(v@) =~= seq![
        "-NoProfile"@,
        "-NonInteractive"@,
        "-ExecutionPolicy"@,
        "Bypass"@,
        "-File"@,
        script@,
        "-Dir"@,
        dir@,
    ]);
    add_switch(&mut v, "-Pin", pin.as_str());
    add_switch(&mut v, "-CudaPath", cuda_path);
    let ghost b = strings(v@);
    add_word(&mut v, "-CudaArch");
    add_word(&mut v, cuda_arch);
    assert(strings(v@) =~= b + seq!["-CudaArch"@, cuda_arch@]);
    add_word_if(&mut v, opts.clean, "-Clean");
    add_word_if(&mut v, opts.allow_cuda_132, "-AllowCuda132");
    add_word_if(&mut v, opts.allow_unsupported_compiler, "-AllowUnsupportedCompiler");
    v
}

/// The command with which PowerShell unpacks an archive.
pub fn expand_command(archive: &str, dir: &str) -> (r: String)
    ensures
        r@ == "Expand-Archive -LiteralPath '"@ + archive@ + "' -DestinationPath '"@ + dir@ + "' -Force"@,
{
    "Expand-Archive -LiteralPath '".to_owned().concat(archive).concat("' -DestinationPath '").concat(dir).concat(
        "' -Force",
    )
}

/// The places of a build script below the first `n` directories.
pub open spec fn script_places(dirs: Seq<Seq<char>>, name: Seq<char>, n: nat, win: bool) -> Seq<Seq<char>>
    decreases n,
{
    if n == 0 || n > dirs.len() {
        Seq::empty()
    } else {
        script_places(dirs, name, (n - 1) as nat, win) + seq![
            under(under(dirs[n - 1], "scripts"@, win), name, win),
            under(under(dirs[n - 1], "scripts/windows"@, win), name, win),
            under(under(dirs[n - 1], "scripts/macos"@, win), name, win),
        ]
    }
}

/// The places at which a build script is looked for, below the given directories.
pub fn script_candidates(dirs: &Vec<String>, name: &str, windows: bool) -> (r: Vec<String>)
    ensures
        strings(r@) == script_places(strings(dirs@), name@, dirs@.len(), windows),
{
    let mut v: Vec<String> = Vec::new();
    let ghost dv = strings(dirs@);
    assert(strings(v@) =~= Seq::empty());
    let mut i: usize = 0;
    while i < dirs.len()
        invariant
            i <= dirs.len(),
            dv == strings(dirs@),
            strings(v@) == script_places(dv, name@, i as nat, windows),
        decreases dirs.len() - i,
    {
        let ghost b = strings(v@);
        let d = dirs[i].as_str();
        assert(dv[i as int] == d@);
        add_word(&mut v, join_path(join_path(d, "scripts", windows).as_str(), name, windows).as_str());
        add_word(&mut v, join_path(join_path(d, "scripts/windows", windows).as_str(), name, windows).as_str());
        add_word(&mut v, join_path(join_path(d, "scripts/macos", windows).as_str(), name, windows).as_str());
        assert(strings(v@) =~= b + seq![
            under(under(d@, "scripts"@, windows), name@, windows),
            under(under(d@, "scripts/windows"@, windows), name@, windows),
            under(under(d@, "scripts/macos"@, windows), name@, windows),
        ]);
        i += 1;
    }
    v
}

proof fn lemma_pick_from(assets: Seq<JsonV>, w: Wanted, i: int)
    requires
        0 <= i,
    ensures
        match pick_from(assets, w, i) {
            Some(x) => exists|k: int|
                i <= k < assets.len() && offered(#[trigger] assets[k], w) == Some(x) && forall|j: int|
                    i <= j < k ==> offered(#[trigger] assets[j], w) is None,
            None => forall|j: int| i <= j < assets.len() ==> offered(#[trigger] assets[j], w) is None,
        },
    decreases assets.len() - i,
{
    if i < assets.len() && offered(assets[i], w) is None {
        lemma_pick_from(assets, w, i + 1);
    }
}

/// A file of a name is at an address, among those of a release.
pub open spec fn is_there(assets: Seq<JsonV>, name: Seq<char>, url: Seq<char>) -> bool {
    exists|k: int|
        0 <= k < assets.len() && (#[trigger] assets[k]).get_str("name"@) == Some(name) && assets[k].get_str(
            "browser_download_url"@,
        ) == Some(url)
}

/// What is fetched is one of the files of the release, made for the platform. On Windows it is
/// the archive for the newer CUDA wherever there is one, and the runtime is that of the same
/// version; nothing is fetched only where no file suits.
#[verifier::rlimit(40)]
pub proof fn law_the_archive_suits_the_platform(assets: Seq<JsonV>, p: Platform)
    ensures
        ({
            let (bin, runtime) = picked(assets, p);
            &&& bin matches Some(b) ==> is_there(assets, b.0, b.1) && begins(b.0, "llama-"@)
            &&& runtime matches Some(r) ==> is_there(assets, r.0, r.1) && p == Platform::Windows && begins(
                r.0,
                "cudart-llama-bin-win-cuda"@,
            )
            &&& p == Platform::Windows ==> {
                &&& (exists|k: int| 0 <= k < assets.len() && offered(#[trigger] assets[k], Wanted::WinCuda13) is Some)
                    ==> (bin matches Some(b) && holds(b.0, "13."@) && holds(b.0, "bin-win-cuda"@))
                &&& bin is None ==> forall|k: int|
                    0 <= k < assets.len() ==> offered(#[trigger] assets[k], Wanted::WinCuda12) is None && offered(
                        assets[k],
                        Wanted::WinCuda13,
                    ) is None
                &&& (bin matches Some(b) && holds(b.0, "13."@)) ==> (runtime matches Some(r) ==> holds(r.0, "13."@))
                &&& (bin matches Some(b) && !holds(b.0, "13."@)) ==> (runtime matches Some(r) ==> holds(r.0, "12."@))
            }
            &&& p == Platform::MacOs ==> (bin matches Some(b) ==> holds(b.0, "bin-macos"@) || holds(
                b.0,
                "bin-macos-arm64"@,
            )) && ((exists|k: int| 0 <= k < assets.len() && offered(#[trigger] assets[k], Wanted::MacArm) is Some) ==> (
            bin matches Some(b) && holds(b.0, "bin-macos-arm64"@)))
            &&& p == Platform::Linux ==> (bin matches Some(b) ==> holds(b.0, "bin-ubuntu-x64"@) || holds(
                b.0,
                "bin-linux-x64"@,
            )) && (bin is None ==> forall|k: int|
                0 <= k < assets.len() ==> offered(#[trigger] assets[k], Wanted::Linux) is None)
        }),
{
    lemma_pick_from(assets, Wanted::WinCuda13, 0);
    lemma_pick_from(assets, Wanted::WinCuda12, 0);
    lemma_pick_from(assets, Wanted::CudaRuntime13, 0);
    lemma_pick_from(assets, Wanted::CudaRuntime12, 0);
    lemma_pick_from(assets, Wanted::MacArm, 0);
    lemma_pick_from(assets, Wanted::MacAny, 0);
    lemma_pick_from(assets, Wanted::Linux, 0);
    let (bin, runtime) = picked(assets, p);
    if let Some(b) = bin {
        let k = choose|k: int|
            0 <= k < assets.len() && (offered(#[trigger] assets[k], Wanted::WinCuda13) == Some(b) || offered(
                assets[k],
                Wanted::WinCuda12,
            ) == Some(b) || offered(assets[k], Wanted::MacArm) == Some(b) || offered(assets[k], Wanted::MacAny) == Some(
                b,
            ) || offered(assets[k], Wanted::Linux) == Some(b));
        assert(assets[k].get_str("name"@) == Some(b.0));
    }
    if let Some(r) = runtime {
        let k = choose|k: int|
            0 <= k < assets.len() && (offered(#[trigger] assets[k], Wanted::CudaRuntime13) == Some(r) || offered(
                assets[k],
                Wanted::CudaRuntime12,
            ) == Some(r));
        assert(assets[k].get_str("name"@) == Some(r.0));
    }
}

} // verus!
