//! Connected devices, and where the `adb` executable is found.

use crate::text::{from_chars, lines, split_lines, split_words, to_chars, texts, views, words};
use vstd::prelude::*;

verus! {

/// A device as `adb devices` reports it.
#[derive(Debug)]
pub struct AdbDevice {
    pub id: String,
    pub status: String,
}

/// What an `AdbDevice` holds, as plain values.
pub struct AdbDeviceView {
    pub id: Seq<char>,
    pub status: Seq<char>,
}

impl View for AdbDevice {
    type V = AdbDeviceView;

    open spec fn view(&self) -> AdbDeviceView {
        AdbDeviceView { id: self.id@, status: self.status@ }
    }
}

/// The views of a sequence of devices.
pub open spec fn device_views(v: Seq<AdbDevice>) -> Seq<AdbDeviceView> {
    Seq::new(v.len(), |i: int| v[i]@)
}

/// The devices that the given lines report: each line of at least two
/// words gives one device, with the first word as its id and the second as
/// its status.
pub open spec fn devices_in(ls: Seq<Seq<char>>) -> Seq<AdbDeviceView>
    decreases ls.len(),
{
    if ls.len() == 0 {
        Seq::empty()
    } else {
        let rest = devices_in(ls.drop_last());
        let w = words(ls.last());
        if w.len() >= 2 {
            rest.push(AdbDeviceView { id: w[0], status: w[1] })
        } else {
            rest
        }
    }
}

/// The devices that the output of `adb devices` reports. Its first line is
/// a heading.
pub open spec fn parsed_devices(stdout: Seq<char>) -> Seq<AdbDeviceView> {
    let ls = lines(stdout);
    if ls.len() == 0 {
        Seq::empty()
    } else {
        devices_in(ls.drop_first())
    }
}

/// Reads the output of `adb devices`.
pub fn parse_devices(stdout: &str) -> (out: Vec<AdbDevice>)
    ensures
        device_views(out@) == parsed_devices(stdout@),
{
    let chars = to_chars(stdout);
    let ls = split_lines(chars.as_slice());
    let mut out: Vec<AdbDevice> = Vec::new();
    if ls.len() == 0 {
        return out;
    }
    let mut i: usize = 1;
    while i < ls.len()
        invariant
            1 <= i <= ls.len(),
            device_views(out@) == devices_in(views(ls@).drop_first().take(i - 1)),
        decreases ls.len() - i,
    {
        let ghost rest = views(ls@).drop_first();
        assert(rest.take(i as int).drop_last() == rest.take(i - 1));
        let w = split_words(ls[i].as_slice());
        if w.len() >= 2 {
            let device = AdbDevice {
                id: from_chars(w[0].as_slice()),
                status: from_chars(w[1].as_slice()),
            };
            out.push(device);
        }
        i += 1;
    }
    assert(views(ls@).drop_first().take(ls@.len() - 1) == views(ls@).drop_first());
    out
}

/// The places where `adb` is looked for, in order: three fixed ones, and
/// two under the home directory where that is known.
pub open spec fn adb_candidates_of(home: Option<Seq<char>>) -> Seq<Seq<char>> {
    let fixed = seq!["/opt/homebrew/bin/adb"@, "/usr/local/bin/adb"@, "/opt/local/bin/adb"@];
    match home {
        Some(h) => fixed + seq![
            h + "/Library/Android/sdk/platform-tools/adb"@,
            h + "/Android/Sdk/platform-tools/adb"@,
        ],
        None => fixed,
    }
}

/// The places where `adb` is looked for, in order.
pub fn adb_candidates(home: Option<&str>) -> (out: Vec<String>)
    ensures
        texts(out@) == adb_candidates_of(
            match home {
                Some(h) => Some(h@),
                None => None,
            },
        ),
{
    let mut out: Vec<String> = Vec::new();
    out.push(String::from_str("/opt/homebrew/bin/adb"));
    out.push(String::from_str("/usr/local/bin/adb"));
    out.push(String::from_str("/opt/local/bin/adb"));
    match home {
        Some(h) => {
            out.push(String::from_str(h).concat("/Library/Android/sdk/platform-tools/adb"));
            out.push(String::from_str(h).concat("/Android/Sdk/platform-tools/adb"));
        },
        None => {},
    }
    out
}

/// `k` is the first place that exists, among those that were probed.
pub open spec fn first_found(candidates: Seq<Seq<char>>, exists: Seq<bool>, k: int) -> bool {
    &&& 0 <= k < candidates.len()
    &&& k < exists.len()
    &&& exists[k]
    &&& forall|j: int| 0 <= j < k ==> !exists[j]
}

/// The first of `candidates` that exists, where `exists[i]` tells whether
/// `candidates[i]` does.
pub fn find_adb_path(candidates: &Vec<String>, exists: &Vec<bool>) -> (r: Option<String>)
    ensures
        match r {
            Some(p) => exists|k: int|
                first_found(texts(candidates@), exists@, k) && p@ == candidates@[k]@,
            None => forall|k: int| !first_found(texts(candidates@), exists@, k),
        },
{
    let mut i: usize = 0;
    while i < candidates.len() && i < exists.len()
        invariant
            forall|j: int| 0 <= j < i && j < exists@.len() ==> !exists@[j],
        decreases candidates.len() - i,
    {
        if exists[i] {
            assert(first_found(texts(candidates@), exists@, i as int));
            return Some(candidates[i].clone());
        }
        i += 1;
    }
    None
}

/// The `adb` command to run: the remembered path if there is one, else
/// the path that was found, which is then remembered, else plain `adb`.
pub fn get_adb_command(stored: &mut Option<String>, found: Option<String>) -> (r: String)
    ensures
        match *old(stored) {
            Some(p) => r@ == p@ && *final(stored) == *old(stored),
            None => match found {
                Some(f) => r@ == f@ && *final(stored) == Some(f),
                None => r@ == "adb"@ && *final(stored) == None::<String>,
            },
        },
{
    match stored {
        Some(p) => {
            return p.clone();
        },
        None => {},
    }
    match found {
        Some(f) => {
            let r = f.clone();
            *stored = Some(f);
            r
        },
        None => String::from_str("adb"),
    }
}

/// Remembers `path` as the `adb` executable, if it exists.
pub fn set_adb_path(stored: &mut Option<String>, path: String, exists: bool) -> (r: Result<
    (),
    String,
>)
    ensures
        match r {
            Ok(_) => exists && *final(stored) == Some(path),
            Err(m) => !exists && *final(stored) == *old(stored) && m@
                == "ADB executable not found at specified path"@,
        },
{
    if !exists {
        return Err(String::from_str("ADB executable not found at specified path"));
    }
    *stored = Some(path);
    Ok(())
}

} // verus!
