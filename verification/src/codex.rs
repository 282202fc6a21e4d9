//! The managed Codex binary: which release tags to ask for, which asset
//! fits the platform, how the binary is taken out of it, what the binary
//! file is called, and the pinned version as the package manifest states it.
use std::path::PathBuf;

use vstd::prelude::*;

use crate::text::{
    chars_eq, chars_of, has_prefix, has_prefix_exec, has_suffix, has_suffix_exec, line_pieces,
    split_lines, string_from, trim, trim_chars,
};

verus! {

/// A Codex binary installed under the app's data directory.
#[derive(Debug)]
pub struct ManagedCodexInstallation {
    pub codex_bin: PathBuf,
}

/// The release tags tried for a version: the version itself, then with
/// the `rust-v` prefix where it has none.
pub open spec fn tag_candidates(version: Seq<char>) -> Seq<Seq<char>> {
    if has_prefix(version, "rust-v"@) {
        seq![version]
    } else {
        seq![version, "rust-v"@ + version]
    }
}

/// The release tags to try for a Codex version.
pub fn release_tag_candidates(version: &str) -> (r: Vec<String>)
    ensures
        r@.map_values(|t: String| t@) == tag_candidates(version@),
{
    let v = chars_of(version);
    let prefix = chars_of("rust-v");
    proof {
        reveal_strlit("rust-v");
    }
    let mut out: Vec<String> = Vec::new();
    out.push(string_from(&v));
    if !has_prefix_exec(&v, &prefix) {
        let mut t = prefix.clone();
        let mut i: usize = 0;
        while i < v.len()
            invariant
                i <= v@.len(),
                t@ == prefix@ + v@.take(i as int),
            decreases v@.len() - i,
        {
            t.push(v[i]);
            proof {
                assert(v@.take(i as int).push(v@[i as int]) == v@.take(i + 1));
            }
            i = i + 1;
        }
        proof {
            assert(v@.take(v@.len() as int) == v@);
        }
        out.push(string_from(&t));
    }
    proof {
        assert(out@.map_values(|t: String| t@) == tag_candidates(version@));
    }
    out
}

/// The release asset for an operating system and an architecture, as
/// `std::env::consts` name them.
pub open spec fn asset_for(os: Seq<char>, arch: Seq<char>) -> Option<Seq<char>> {
    if os == "linux"@ && arch == "x86_64"@ {
        Some("codex-x86_64-unknown-linux-gnu.tar.gz"@)
    } else if os == "linux"@ && arch == "aarch64"@ {
        Some("codex-aarch64-unknown-linux-gnu.tar.gz"@)
    } else if os == "macos"@ && arch == "x86_64"@ {
        Some("codex-x86_64-apple-darwin.tar.gz"@)
    } else if os == "macos"@ && arch == "aarch64"@ {
        Some("codex-aarch64-apple-darwin.tar.gz"@)
    } else if os == "windows"@ && arch == "x86_64"@ {
        Some("codex-x86_64-pc-windows-msvc.exe"@)
    } else if os == "windows"@ && arch == "aarch64"@ {
        Some("codex-aarch64-pc-windows-msvc.exe"@)
    } else {
        None
    }
}

fn same_text(a: &str, b: &str) -> (r: bool)
    ensures
        r == (a@ == b@),
{
    chars_eq(&chars_of(a), &chars_of(b))
}

/// The name of the release asset that holds the Codex binary for a
/// platform, or the error for a platform without one.
pub fn release_asset_name(os: &str, arch: &str) -> (r: Result<String, String>)
    ensures
        match r {
            Ok(name) => asset_for(os@, arch@) == Some(name@),
            Err(e) => asset_for(os@, arch@) is None && e@ == "unsupported Codex platform target: "@
                + os@ + "/"@ + arch@,
        },
{
    proof {
        reveal_strlit("linux");
        reveal_strlit("macos");
        reveal_strlit("windows");
        reveal_strlit("x86_64");
        reveal_strlit("aarch64");
    }
    let linux = same_text(os, "linux");
    let macos = same_text(os, "macos");
    let windows = same_text(os, "windows");
    let x64 = same_text(arch, "x86_64");
    let arm = same_text(arch, "aarch64");
    let name: &str = if linux && x64 {
        "codex-x86_64-unknown-linux-gnu.tar.gz"
    } else if linux && arm {
        "codex-aarch64-unknown-linux-gnu.tar.gz"
    } else if macos && x64 {
        "codex-x86_64-apple-darwin.tar.gz"
    } else if macos && arm {
        "codex-aarch64-apple-darwin.tar.gz"
    } else if windows && x64 {
        "codex-x86_64-pc-windows-msvc.exe"
    } else if windows && arm {
        "codex-aarch64-pc-windows-msvc.exe"
    } else {
        let mut out = chars_of("unsupported Codex platform target: ");
        let o = chars_of(os);
        let slash = chars_of("/");
        let a = chars_of(arch);
        append(&mut out, &o);
        append(&mut out, &slash);
        append(&mut out, &a);
        return Err(string_from(&out));
    };
    Ok(String::from_str(name))
}

fn append(out: &mut Vec<char>, more: &Vec<char>)
    ensures
        final(out)@ == old(out)@ + more@,
{
    let ghost start = out@;
    for i in 0..more.len()
        invariant
            out@ == start + more@.take(i as int),
    {
        out.push(more[i]);
        proof {
            assert(more@.take(i as int).push(more@[i as int]) == more@.take(i + 1));
        }
    }
    proof {
        assert(more@.take(more@.len() as int) == more@);
    }
}

/// The file name of the Codex binary on a platform.
pub fn binary_file_name(windows: bool) -> (r: &'static str)
    ensures
        r@ == if windows {
            "codex.exe"@
        } else {
            "codex"@
        },
{
    if windows {
        "codex.exe"
    } else {
        "codex"
    }
}

/// Whether a trimmed line opens a section: `[` ... `]`.
pub open spec fn is_section_header(t: Seq<char>) -> bool {
    t.len() > 0 && t[0] == '[' && t.last() == ']'
}

/// The number of characters before the first `=`, or all of them.
pub open spec fn until_eq(t: Seq<char>) -> nat
    decreases t.len(),
{
    if t.len() == 0 || t[0] == '=' {
        0
    } else {
        1 + until_eq(t.skip(1))
    }
}

/// The text with every `"` taken off both of its ends.
pub open spec fn unquoted(t: Seq<char>) -> Seq<char>
    decreases t.len(),
{
    if t.len() > 0 && t[0] == '"' {
        unquoted(t.skip(1))
    } else if t.len() > 0 && t.last() == '"' {
        unquoted(t.drop_last())
    } else {
        t
    }
}

/// The version that the `[package.metadata.codex]` section of a manifest
/// gives, read line by line from `lines`, `in_section` saying whether that
/// section is open.
pub open spec fn version_in(lines: Seq<Seq<char>>, in_section: bool) -> Option<Seq<char>>
    decreases lines.len(),
{
    if lines.len() == 0 {
        None
    } else {
        let t = trim(lines[0]);
        let rest = lines.skip(1);
        if is_section_header(t) {
            version_in(rest, t == "[package.metadata.codex]"@)
        } else if !in_section || t.len() == 0 || t[0] == '#' {
            version_in(rest, in_section)
        } else {
            let i = until_eq(t);
            if i < t.len() && trim(t.take(i as int)) == "version"@ {
                Some(unquoted(trim(t.skip(i as int + 1))))
            } else {
                version_in(rest, in_section)
            }
        }
    }
}

/// The Codex version pinned in a package manifest.
pub open spec fn manifest_codex_version(manifest: Seq<char>) -> Option<Seq<char>> {
    version_in(line_pieces(manifest), false)
}

proof fn lemma_until_eq_at(t: Seq<char>, m: int)
    requires
        0 <= m <= t.len(),
        forall|k: int| 0 <= k < m ==> #[trigger] t[k] != '=',
        m < t.len() ==> t[m] == '=',
    ensures
        until_eq(t) == m,
    decreases m,
{
    if m > 0 {
        let u = t.skip(1);
        assert forall|k: int| 0 <= k < m - 1 implies #[trigger] u[k] != '=' by {
            assert(u[k] == t[k + 1]);
        }
        if m - 1 < u.len() {
            assert(u[m - 1] == t[m]);
        }
        lemma_until_eq_at(u, m - 1);
    }
}

proof fn lemma_unquoted_range(t: Seq<char>, a: int, b: int)
    requires
        0 <= a <= b <= t.len(),
        forall|k: int| 0 <= k < a ==> #[trigger] t[k] == '"',
        forall|k: int| b <= k < t.len() ==> #[trigger] t[k] == '"',
        a == b || (t[a] != '"' && t[b - 1] != '"'),
    ensures
        unquoted(t) == t.subrange(a, b),
    decreases t.len(),
{
    if t.len() > 0 && t[0] == '"' {
        let u = t.skip(1);
        if a > 0 {
            assert forall|k: int| 0 <= k < a - 1 implies #[trigger] u[k] == '"' by {
                assert(u[k] == t[k + 1]);
            }
            assert forall|k: int| b - 1 <= k < u.len() implies #[trigger] u[k] == '"' by {
                assert(u[k] == t[k + 1]);
            }
            if a != b {
                assert(u[a - 1] == t[a]);
                assert(u[b - 2] == t[b - 1]);
            }
            lemma_unquoted_range(u, a - 1, b - 1);
            assert(u.subrange(a - 1, b - 1) == t.subrange(a, b));
        } else {
            assert(a == b);
            assert(b == 0 || t[b - 1] != '"');
            if b > 0 {
                assert(t[0] != '"');
            }
            assert forall|k: int| 0 <= k < u.len() implies #[trigger] u[k] == '"' by {
                assert(u[k] == t[k + 1]);
            }
            lemma_unquoted_range(u, 0, 0);
        }
    } else if t.len() > 0 && t.last() == '"' {
        let u = t.drop_last();
        if b < t.len() {
            assert forall|k: int| 0 <= k < a implies #[trigger] u[k] == '"' by {
                assert(u[k] == t[k]);
            }
            assert forall|k: int| b <= k < u.len() implies #[trigger] u[k] == '"' by {
                assert(u[k] == t[k]);
            }
            if a != b {
                assert(u[a] == t[a]);
                assert(u[b - 1] == t[b - 1]);
            }
            lemma_unquoted_range(u, a, b);
            assert(u.subrange(a, b) == t.subrange(a, b));
        } else {
            assert(a == b);
            assert(t[b - 1] == '"');
            assert(false);
        }
    } else {
        if a > 0 {
            assert(t[0] == '"');
        }
        if b < t.len() {
            assert(t[t.len() - 1] == '"');
        }
        assert(t.subrange(a, b) == t);
    }
}

fn unquote(t: &Vec<char>) -> (r: Vec<char>)
    ensures
        r@ == unquoted(t@),
{
    let n = t.len();
    let mut a: usize = 0;
    while a < n && t[a] == '"'
        invariant
            a <= n == t@.len(),
            forall|k: int| 0 <= k < a ==> #[trigger] t@[k] == '"',
        decreases n - a,
    {
        a = a + 1;
    }
    let mut b: usize = n;
    while b > a && t[b - 1] == '"'
        invariant
            a <= b <= n == t@.len(),
            forall|k: int| b <= k < n ==> #[trigger] t@[k] == '"',
        decreases b,
    {
        b = b - 1;
    }
    let mut out: Vec<char> = Vec::new();
    let mut i = a;
    while i < b
        invariant
            a <= i <= b <= n == t@.len(),
            out@ == t@.subrange(a as int, i as int),
        decreases b - i,
    {
        out.push(t[i]);
        proof {
            assert(t@.subrange(a as int, i as int).push(t@[i as int]) == t@.subrange(
                a as int,
                i + 1,
            ));
        }
        i = i + 1;
    }
    proof {
        lemma_unquoted_range(t@, a as int, b as int);
    }
    out
}

proof fn lemma_version_in_skip(lines: Seq<Seq<char>>, i: int, in_section: bool)
    requires
        0 <= i < lines.len(),
    ensures
        lines.skip(i).skip(1) == lines.skip(i + 1),
        lines.skip(i)[0] == lines[i],
{
}

/// The Codex version pinned in the `[package.metadata.codex]` section of a
/// package manifest: the value of its first `version` key, without quotes.
pub fn read_codex_version(cargo_toml: &str) -> (r: Option<String>)
    ensures
        match r {
            Some(v) => manifest_codex_version(cargo_toml@) == Some(v@),
            None => manifest_codex_version(cargo_toml@) is None,
        },
{
    let lines = split_lines(&chars_of(cargo_toml));
    let ghost ls = lines@.map_values(|l: Vec<char>| l@);
    let header = chars_of("[package.metadata.codex]");
    let key = chars_of("version");
    proof {
        reveal_strlit("[package.metadata.codex]");
        reveal_strlit("version");
        assert(ls.skip(0) == ls);
    }
    let mut in_section = false;
    let mut i: usize = 0;
    while i < lines.len()
        invariant
            i <= lines@.len(),
            ls == lines@.map_values(|l: Vec<char>| l@),
            ls == line_pieces(cargo_toml@),
            header@ == "[package.metadata.codex]"@,
            key@ == "version"@,
            version_in(ls.skip(i as int), in_section) == manifest_codex_version(cargo_toml@),
        decreases lines@.len() - i,
    {
        proof {
            lemma_version_in_skip(ls, i as int, in_section);
            assert(ls[i as int] == lines@[i as int]@);
        }
        let t = trim_chars(&lines[i]);
        let tn = t.len();
        if tn > 0 && t[0] == '[' && t[tn - 1] == ']' {
            in_section = chars_eq(&t, &header);
            i = i + 1;
            continue;
        }
        if !in_section || tn == 0 || t[0] == '#' {
            i = i + 1;
            continue;
        }
        let mut j: usize = 0;
        while j < tn && t[j] != '='
            invariant
                j <= tn == t@.len(),
                forall|k: int| 0 <= k < j ==> #[trigger] t@[k] != '=',
            decreases tn - j,
        {
            j = j + 1;
        }
        proof {
            lemma_until_eq_at(t@, j as int);
        }
        if j < tn {
            let mut k_part: Vec<char> = Vec::new();
            let mut m: usize = 0;
            while m < j
                invariant
                    m <= j < tn == t@.len(),
                    k_part@ == t@.take(m as int),
                decreases j - m,
            {
                k_part.push(t[m]);
                proof {
                    assert(t@.take(m as int).push(t@[m as int]) == t@.take(m + 1));
                }
                m = m + 1;
            }
            let k_trim = trim_chars(&k_part);
            if chars_eq(&k_trim, &key) {
                let mut v_part: Vec<char> = Vec::new();
                let mut m2: usize = j + 1;
                while m2 < tn
                    invariant
                        j + 1 <= m2 <= tn == t@.len(),
                        v_part@ == t@.subrange(j + 1, m2 as int),
                    decreases tn - m2,
                {
                    v_part.push(t[m2]);
                    proof {
                        assert(t@.subrange(j + 1, m2 as int).push(t@[m2 as int]) == t@.subrange(
                            j + 1,
                            m2 + 1,
                        ));
                    }
                    m2 = m2 + 1;
                }
                proof {
                    assert(t@.subrange(j + 1, tn as int) == t@.skip(j + 1));
                }
                let value = unquote(&trim_chars(&v_part));
                return Some(string_from(&value));
            }
        }
        i = i + 1;
    }
    None
}

/// What reading a gzip-compressed tar archive gives: the bytes of its
/// first entry, none where it has no entry, or the message of the error
/// met.
pub uninterp spec fn tar_gz_first_entry(bytes: Seq<u8>) -> Result<Option<Seq<u8>>, Seq<char>>;

/// The bytes of an optional entry.
pub open spec fn entry_bytes(o: Option<Vec<u8>>) -> Option<Seq<u8>> {
    match o {
        Some(b) => Some(b@),
        None => None,
    }
}

/// `tar::Archive::new(flate2::read::GzDecoder::new(..))` over the bytes,
/// then `entries()` and the first entry read to its end, with each I/O
/// error turned into its message: the outcome depends on the bytes alone.
#[verifier::external_body]
fn first_tar_gz_entry(bytes: &Vec<u8>) -> (r: Result<Option<Vec<u8>>, String>)
    ensures
        match r {
            Ok(o) => tar_gz_first_entry(bytes@) == Ok::<Option<Seq<u8>>, Seq<char>>(entry_bytes(o)),
            Err(e) => tar_gz_first_entry(bytes@) == Err::<Option<Seq<u8>>, Seq<char>>(e@),
        },
{
    let decoder = flate2::read::GzDecoder::new(std::io::Cursor::new(bytes.as_slice()));
    let mut archive = tar::Archive::new(decoder);
    let mut entries = archive.entries().map_err(|error| error.to_string())?;
    match entries.next() {
        None => Ok(None),
        Some(Err(error)) => Err(error.to_string()),
        Some(Ok(mut entry)) => {
            let mut out = Vec::new();
            std::io::Read::read_to_end(&mut entry, &mut out).map_err(|error| error.to_string())?;
            Ok(Some(out))
        },
    }
}

/// The binary in a downloaded release asset: the first entry of a
/// `.tar.gz` archive, or the asset itself.
pub open spec fn asset_binary(asset_name: Seq<char>, bytes: Seq<u8>) -> Result<Seq<u8>, Seq<char>> {
    if has_suffix(asset_name, ".tar.gz"@) {
        match tar_gz_first_entry(bytes) {
            Err(e) => Err(e),
            Ok(None) => Err("Codex archive "@ + asset_name + " was empty"@),
            Ok(Some(b)) => Ok(b),
        }
    } else {
        Ok(bytes)
    }
}

/// Takes the binary out of a downloaded release asset.
pub fn unpack_release_asset(asset_name: &str, bytes: Vec<u8>) -> (r: Result<Vec<u8>, String>)
    ensures
        match r {
            Ok(b) => asset_binary(asset_name@, bytes@) == Ok::<Seq<u8>, Seq<char>>(b@),
            Err(e) => asset_binary(asset_name@, bytes@) == Err::<Seq<u8>, Seq<char>>(e@),
        },
{
    let name = chars_of(asset_name);
    let suffix = chars_of(".tar.gz");
    if !has_suffix_exec(&name, &suffix) {
        return Ok(bytes);
    }
    match first_tar_gz_entry(&bytes) {
        Err(e) => Err(e),
        Ok(Some(b)) => Ok(b),
        Ok(None) => {
            let mut out = chars_of("Codex archive ");
            let tail = chars_of(" was empty");
            let ghost start = out@;
            for i in 0..name.len()
                invariant
                    out@ == start + name@.take(i as int),
            {
                out.push(name[i]);
                proof {
                    assert(name@.take(i as int).push(name@[i as int]) == name@.take(i + 1));
                }
            }
            let ghost mid = out@;
            for i in 0..tail.len()
                invariant
                    out@ == mid + tail@.take(i as int),
            {
                out.push(tail[i]);
                proof {
                    assert(tail@.take(i as int).push(tail@[i as int]) == tail@.take(i + 1));
                }
            }
            proof {
                assert(name@.take(name@.len() as int) == name@);
                assert(tail@.take(tail@.len() as int) == tail@);
                reveal_strlit("Codex archive ");
                reveal_strlit(" was empty");
            }
            Err(string_from(&out))
        },
    }
}

} // verus!
