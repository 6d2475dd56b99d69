//! What the workbench modules need from the machine: where their helpers
//! live, the capability checks, and whether a module can run its jobs.

use vstd::prelude::*;
use vstd::string::StringExecFns;

use crate::analysis::{copy_strings, push_str, strings_view};
use crate::isolation::{code_name, code_text, IsolationDiagnosis};
use crate::modules::{last_index_of, plain_name, CapabilityCheck, ModuleDiagnosis, ModuleSpec};
use crate::text::{bytes_contain, seq_contains, str_eq};

verus! {

/// A Windows verbatim prefix, `\\?\`, under which joining rebuilds the path.
pub open spec fn verbatim_prefix(path: Seq<char>) -> bool {
    path.len() >= 4 && path[0] == '\\' && path[1] == '\\' && path[2] == '?' && path[3] == '\\'
}

/// `std::path::Path::join` with a relative name without separators, other
/// than `.` and `..`, as UTF-8 text: the base, a separator when the base does
/// not already end in one, and the name. Which separator is the platform's,
/// so the contract allows either of the two. Under a Windows verbatim
/// prefix the standard library rebuilds the joined path from its
/// components, so for such a base the contract states nothing.
#[verifier::external_body]
fn path_join(base: &str, name: &str) -> (r: String)
    requires
        name@.len() > 0,
        !name@.contains('/'),
        !name@.contains('\\'),
        !name@.contains(':'),
        name@ != seq!['.'],
        name@ != seq!['.', '.'],
    ensures
        !verbatim_prefix(base@) ==> (r@ == base@ + name@ || r@ == base@ + seq!['/'] + name@ || r@ == base@
            + seq!['\\'] + name@),
{
    std::path::Path::new(base).join(name).to_string_lossy().into_owned()
}

/// The parent of a path whose last component follows its last `/`, where
/// every platform reads the path the same way: no `\\` and no `:`, no
/// leading `//`, a last component other than `.` and `..`, and a nonempty
/// leading part that ends neither in `/` nor in a `.` component. The parent
/// is then the leading part, exactly as written.
pub open spec fn slash_parent(path: Seq<char>) -> Option<Seq<char>> {
    match last_index_of(path, '/', path.len() as int) {
        None => None,
        Some(i) => {
            let base = path.take(i);
            let name = path.skip(i + 1);
            if name.len() > 0 && name != seq!['.'] && name != seq!['.', '.'] && base.len() > 0 && base.last()
                != '/' && base != seq!['.'] && !(base.len() >= 2 && base[base.len() - 2] == '/' && base.last()
                == '.') && !path.contains('\\') && !path.contains(':') && !(path.len() >= 2 && path[0] == '/'
                && path[1] == '/') {
                Some(base)
            } else {
                None
            }
        },
    }
}

/// `std::path::Path::parent`, as UTF-8 text: the path without its final
/// component, when it has one. As the standard library documents, an empty
/// path and a root have none, and a relative path of one component has the
/// empty parent; a path of the shape `slash_parent` describes has its
/// leading part as parent. Where components split in other paths depends on
/// the platform, so of those the contract states only that the parent is a
/// leading part of the path.
#[verifier::external_body]
fn path_parent(path: &str) -> (r: Option<String>)
    ensures
        r matches Some(p) ==> p@.len() <= path@.len() && path@.take(p@.len() as int) == p@,
        path@.len() == 0 ==> r is None,
        path@.len() == 1 && path@[0] == '/' ==> r is None,
        path@.len() > 0 && plain_name(path@) ==> r is Some && r->0@.len() == 0,
        slash_parent(path@) is Some ==> r is Some && r->0@ == slash_parent(path@)->0,
{
    std::path::Path::new(path).parent().map(|p| p.to_string_lossy().into_owned())
}

/// Where the helper scripts live: `sidecars` under the repository root.
pub fn sidecar_dir(repo_root: &str) -> (s: String)
    ensures
        !verbatim_prefix(repo_root@) ==> (s@ == repo_root@ + "sidecars"@ || s@ == repo_root@ + "/sidecars"@ || s@
            == repo_root@ + "\\sidecars"@),
{
    proof {
        reveal_strlit("sidecars");
        assert("sidecars"@[0] == 's');
        assert("sidecars"@ != seq!['.']);
        assert("sidecars"@ != seq!['.', '.']);
        reveal_strlit("/sidecars");
        reveal_strlit("\\sidecars");
        assert(seq!['/'] + "sidecars"@ =~= "/sidecars"@);
        assert(seq!['\\'] + "sidecars"@ =~= "\\sidecars"@);
    }
    path_join(repo_root, "sidecars")
}

/// The directory that holds the sibling projects: the repository root's
/// parent, or the root itself when it has none.
pub fn cursor_root(repo_root: &str) -> (s: String)
    ensures
        s@.len() <= repo_root@.len(),
        repo_root@.take(s@.len() as int) == s@,
        repo_root@.len() == 0 ==> s@.len() == 0,
        repo_root@.len() == 1 && repo_root@[0] == '/' ==> s@ == repo_root@,
        repo_root@.len() > 0 && plain_name(repo_root@) ==> s@.len() == 0,
        slash_parent(repo_root@) matches Some(b) ==> s@ == b,
{
    match path_parent(repo_root) {
        Some(p) => p,
        None => repo_root.to_string(),
    }
}

fn capability(id: &str, available: bool, detail: &str) -> (c: CapabilityCheck)
    ensures
        c.id@ == id@,
        c.available == available,
        c.detail@ == detail@,
{
    CapabilityCheck { id: id.to_string(), available, detail: detail.to_string() }
}

/// The capabilities the checks know.
#[derive(Clone, Copy, Debug, PartialEq, Eq, Structural)]
pub enum Capability {
    Isolation,
    Docker,
    Usb,
    Magika,
    Yara,
    MalcheckSurface,
    SidecarMalcheck,
    SidecarUsb,
}

pub open spec fn spec_capability(id: Seq<char>) -> Option<Capability> {
    if id == "C_isolation"@ {
        Some(Capability::Isolation)
    } else if id == "C_docker"@ {
        Some(Capability::Docker)
    } else if id == "C_usb"@ {
        Some(Capability::Usb)
    } else if id == "C_magika"@ {
        Some(Capability::Magika)
    } else if id == "C_yara"@ {
        Some(Capability::Yara)
    } else if id == "C_malcheck_surface"@ {
        Some(Capability::MalcheckSurface)
    } else if id == "C_sidecar_malcheck"@ {
        Some(Capability::SidecarMalcheck)
    } else if id == "C_sidecar_usb"@ {
        Some(Capability::SidecarUsb)
    } else {
        None
    }
}

/// Which check a capability id names; the caller runs it.
pub fn capability_of(id: &str) -> (c: Option<Capability>)
    ensures
        c == spec_capability(id@),
{
    if str_eq(id, "C_isolation") {
        Some(Capability::Isolation)
    } else if str_eq(id, "C_docker") {
        Some(Capability::Docker)
    } else if str_eq(id, "C_usb") {
        Some(Capability::Usb)
    } else if str_eq(id, "C_magika") {
        Some(Capability::Magika)
    } else if str_eq(id, "C_yara") {
        Some(Capability::Yara)
    } else if str_eq(id, "C_malcheck_surface") {
        Some(Capability::MalcheckSurface)
    } else if str_eq(id, "C_sidecar_malcheck") {
        Some(Capability::SidecarMalcheck)
    } else if str_eq(id, "C_sidecar_usb") {
        Some(Capability::SidecarUsb)
    } else {
        None
    }
}

/// A capability no check knows is unavailable.
pub fn unknown_capability(id: &str) -> (c: CapabilityCheck)
    ensures
        c.id@ == id@,
        !c.available,
        c.detail@ == "unknown capability"@,
{
    capability(id, false, "unknown capability")
}

/// Isolation is available exactly when the sandbox diagnosis says so; else
/// the detail names the diagnosis's error code.
pub fn isolation_capability(d: &IsolationDiagnosis) -> (c: CapabilityCheck)
    ensures
        c.id@ == "C_isolation"@,
        c.available == d.available,
        c.detail@ == if d.available {
            "AppContainer+Job"@
        } else {
            match d.error_code {
                Some(code) => code_name(code),
                None => "unavailable"@,
            }
        },
{
    if d.available {
        capability("C_isolation", true, "AppContainer+Job")
    } else {
        match d.error_code {
            Some(code) => capability("C_isolation", false, code_text(code)),
            None => capability("C_isolation", false, "unavailable"),
        }
    }
}

/// The disassembler runs in a container: the engine must answer and the
/// image must be loaded.
pub fn docker_capability(info_ok: bool, image_ok: bool, image: &str) -> (c: CapabilityCheck)
    ensures
        c.id@ == "C_docker"@,
        c.available == (info_ok && image_ok),
        c.detail@ == if !info_ok {
            "docker CLI/engine not available"@
        } else if image_ok {
            "docker info ok; image "@ + image@ + " present"@
        } else {
            "Ghidra image not loaded: "@ + image@
        },
{
    if !info_ok {
        return capability("C_docker", false, "docker CLI/engine not available");
    }
    if image_ok {
        let mut d = "docker info ok; image ".to_string();
        d.append(image);
        d.append(" present");
        capability("C_docker", true, d.as_str())
    } else {
        let mut d = "Ghidra image not loaded: ".to_string();
        d.append(image);
        capability("C_docker", false, d.as_str())
    }
}

/// Removable drives can be listed on Windows only.
pub fn usb_capability(windows: bool) -> (c: CapabilityCheck)
    ensures
        c.id@ == "C_usb"@,
        c.available == windows,
        c.detail@ == if windows {
            "Win32 removable enum (drive list may be empty)"@
        } else {
            "USB enumeration is Windows-only"@
        },
{
    if windows {
        capability("C_usb", true, "Win32 removable enum (drive list may be empty)")
    } else {
        capability("C_usb", false, "USB enumeration is Windows-only")
    }
}

/// The content classifier is available when its probe script exists, runs,
/// and reports `"status": "ok"`; there is no fallback.
pub fn magika_capability(script_present: bool, output: Option<&str>) -> (c: CapabilityCheck)
    ensures
        c.id@ == "C_magika"@,
        !script_present ==> !c.available && c.detail@ == "sidecars/magika_probe.py missing"@,
        script_present && output is None ==> !c.available && c.detail@ == "magika probe failed to start"@,
        script_present && output is Some ==> c.available == seq_contains(
            vstd::utf8::encode_utf8(output.unwrap()@),
            vstd::utf8::encode_utf8("\"status\": \"ok\""@),
        ) && c.detail@ == if c.available {
            "Magika model loaded"@
        } else {
            "capability=unavailable (no silent libmagic fallback)"@
        },
{
    if !script_present {
        return capability("C_magika", false, "sidecars/magika_probe.py missing");
    }
    match output {
        None => capability("C_magika", false, "magika probe failed to start"),
        Some(text) => {
            if bytes_contain(text.as_bytes(), "\"status\": \"ok\"".as_bytes()) {
                capability("C_magika", true, "Magika model loaded")
            } else {
                capability("C_magika", false, "capability=unavailable (no silent libmagic fallback)")
            }
        },
    }
}

/// A capability that is present when a file or tree is: YARA rules, the
/// MalCheck tree, or one of the two sidecars with what it drives.
pub fn presence_capability(which: Capability, present: bool) -> (c: CapabilityCheck)
    requires
        which == Capability::Yara || which == Capability::MalcheckSurface || which == Capability::SidecarMalcheck
            || which == Capability::SidecarUsb,
    ensures
        c.available == present,
        c.id@ == match which {
            Capability::Yara => "C_yara"@,
            Capability::MalcheckSurface => "C_malcheck_surface"@,
            Capability::SidecarMalcheck => "C_sidecar_malcheck"@,
            _ => "C_sidecar_usb"@,
        },
        c.detail@ == match which {
            Capability::Yara => if present {
                "bundled eicar.yar present"@
            } else {
                "YARA rules not found"@
            },
            Capability::MalcheckSurface => if present {
                "MalCheck mau/ present"@
            } else {
                "MalCheck tree not found"@
            },
            Capability::SidecarMalcheck => if present {
                "malcheck_sidecar.py + MalCheck/mau"@
            } else {
                "malcheck sidecar or mau/ missing"@
            },
            _ => if present {
                "usb_sidecar.py + USB-GuardDuty pipeline"@
            } else {
                "usb sidecar or UGD pipeline missing"@
            },
        },
{
    match which {
        Capability::Yara => capability(
            "C_yara",
            present,
            if present {
                "bundled eicar.yar present"
            } else {
                "YARA rules not found"
            },
        ),
        Capability::MalcheckSurface => capability(
            "C_malcheck_surface",
            present,
            if present {
                "MalCheck mau/ present"
            } else {
                "MalCheck tree not found"
            },
        ),
        Capability::SidecarMalcheck => capability(
            "C_sidecar_malcheck",
            present,
            if present {
                "malcheck_sidecar.py + MalCheck/mau"
            } else {
                "malcheck sidecar or mau/ missing"
            },
        ),
        _ => capability(
            "C_sidecar_usb",
            present,
            if present {
                "usb_sidecar.py + USB-GuardDuty pipeline"
            } else {
                "usb sidecar or UGD pipeline missing"
            },
        ),
    }
}

/// What the machine showed when one capability was probed: the isolation
/// diagnosis, the container engine's answers, the platform, the classifier
/// probe's run, or whether the files a capability needs are present.
pub enum CapabilityFact {
    Isolation(IsolationDiagnosis),
    Docker { info_ok: bool, image_ok: bool, image: String },
    Usb { windows: bool },
    Magika { script_present: bool, output: Option<String> },
    Present(bool),
    Unknown,
}

/// The fact is of the kind the capability is probed by; any fact goes with
/// an id no check knows.
pub open spec fn fact_fits(which: Option<Capability>, fact: CapabilityFact) -> bool {
    match which {
        None => true,
        Some(Capability::Isolation) => fact is Isolation,
        Some(Capability::Docker) => fact is Docker,
        Some(Capability::Usb) => fact is Usb,
        Some(Capability::Magika) => fact is Magika,
        Some(_) => fact is Present,
    }
}

/// A check as its id, whether it passed, and its detail.
pub open spec fn check_view(c: CapabilityCheck) -> (Seq<char>, bool, Seq<char>) {
    (c.id@, c.available, c.detail@)
}

pub open spec fn isolation_detail(d: IsolationDiagnosis) -> Seq<char> {
    if d.available {
        "AppContainer+Job"@
    } else {
        match d.error_code {
            Some(code) => code_name(code),
            None => "unavailable"@,
        }
    }
}

pub open spec fn docker_detail(info_ok: bool, image_ok: bool, image: Seq<char>) -> Seq<char> {
    if !info_ok {
        "docker CLI/engine not available"@
    } else if image_ok {
        "docker info ok; image "@ + image + " present"@
    } else {
        "Ghidra image not loaded: "@ + image
    }
}

pub open spec fn usb_detail(windows: bool) -> Seq<char> {
    if windows {
        "Win32 removable enum (drive list may be empty)"@
    } else {
        "USB enumeration is Windows-only"@
    }
}

/// The classifier's probe printed `"status": "ok"`.
pub open spec fn magika_ok(output: Seq<char>) -> bool {
    seq_contains(vstd::utf8::encode_utf8(output), vstd::utf8::encode_utf8("\"status\": \"ok\""@))
}

pub open spec fn magika_check(script_present: bool, output: Option<Seq<char>>) -> (bool, Seq<char>) {
    if !script_present {
        (false, "sidecars/magika_probe.py missing"@)
    } else {
        match output {
            None => (false, "magika probe failed to start"@),
            Some(o) => if magika_ok(o) {
                (true, "Magika model loaded"@)
            } else {
                (false, "capability=unavailable (no silent libmagic fallback)"@)
            },
        }
    }
}

pub open spec fn presence_id(which: Capability) -> Seq<char> {
    match which {
        Capability::Yara => "C_yara"@,
        Capability::MalcheckSurface => "C_malcheck_surface"@,
        Capability::SidecarMalcheck => "C_sidecar_malcheck"@,
        _ => "C_sidecar_usb"@,
    }
}

pub open spec fn presence_detail(which: Capability, present: bool) -> Seq<char> {
    match which {
        Capability::Yara => if present {
            "bundled eicar.yar present"@
        } else {
            "YARA rules not found"@
        },
        Capability::MalcheckSurface => if present {
            "MalCheck mau/ present"@
        } else {
            "MalCheck tree not found"@
        },
        Capability::SidecarMalcheck => if present {
            "malcheck_sidecar.py + MalCheck/mau"@
        } else {
            "malcheck sidecar or mau/ missing"@
        },
        _ => if present {
            "usb_sidecar.py + USB-GuardDuty pipeline"@
        } else {
            "usb sidecar or UGD pipeline missing"@
        },
    }
}

/// The check of capability `id` from the fact probed for it.
pub open spec fn spec_check(id: Seq<char>, fact: CapabilityFact) -> (Seq<char>, bool, Seq<char>) {
    match (spec_capability(id), fact) {
        (Some(Capability::Isolation), CapabilityFact::Isolation(d)) => (
            "C_isolation"@,
            d.available,
            isolation_detail(d),
        ),
        (Some(Capability::Docker), CapabilityFact::Docker { info_ok, image_ok, image }) => (
            "C_docker"@,
            info_ok && image_ok,
            docker_detail(info_ok, image_ok, image@),
        ),
        (Some(Capability::Usb), CapabilityFact::Usb { windows }) => ("C_usb"@, windows, usb_detail(windows)),
        (Some(Capability::Magika), CapabilityFact::Magika { script_present, output }) => {
            let r = magika_check(
                script_present,
                match output {
                    Some(o) => Some(o@),
                    None => None,
                },
            );
            ("C_magika"@, r.0, r.1)
        },
        (Some(which), CapabilityFact::Present(present)) => (
            presence_id(which),
            present,
            presence_detail(which, present),
        ),
        _ => (id, false, "unknown capability"@),
    }
}

/// The check of one capability, from what the machine showed when it was
/// probed; an id no check knows is unavailable.
pub fn check_capability(id: &str, fact: &CapabilityFact) -> (c: CapabilityCheck)
    requires
        fact_fits(spec_capability(id@), *fact),
    ensures
        check_view(c) == spec_check(id@, *fact),
{
    match (capability_of(id), fact) {
        (Some(Capability::Isolation), CapabilityFact::Isolation(d)) => isolation_capability(d),
        (Some(Capability::Docker), CapabilityFact::Docker { info_ok, image_ok, image }) => docker_capability(
            *info_ok,
            *image_ok,
            image.as_str(),
        ),
        (Some(Capability::Usb), CapabilityFact::Usb { windows }) => usb_capability(*windows),
        (Some(Capability::Magika), CapabilityFact::Magika { script_present, output }) => {
            let out = match output {
                Some(o) => Some(o.as_str()),
                None => None,
            };
            magika_capability(*script_present, out)
        },
        (Some(which), CapabilityFact::Present(present)) => {
            assert(which != Capability::Isolation && which != Capability::Docker && which != Capability::Usb
                && which != Capability::Magika);
            presence_capability(which, *present)
        },
        _ => unknown_capability(id),
    }
}

// ---------------------------------------------------------------- modules

/// The capabilities a module needs before it may run jobs.
pub open spec fn spec_required_for_jobs(id: Seq<char>, capabilities: Seq<Seq<char>>) -> Seq<Seq<char>> {
    if id == "dashboard"@ {
        Seq::empty()
    } else if id == "deobfuscation"@ {
        seq!["C_isolation"@]
    } else if id == "malware"@ {
        seq!["C_isolation"@, "C_sidecar_malcheck"@]
    } else if id == "usb"@ {
        seq!["C_isolation"@, "C_sidecar_usb"@]
    } else {
        capabilities
    }
}

pub fn required_for_jobs(spec: &ModuleSpec) -> (v: Vec<String>)
    ensures
        strings_view(v@) == spec_required_for_jobs(spec.id@, strings_view(spec.capabilities@)),
{
    let mut v: Vec<String> = Vec::new();
    let id = spec.id.as_str();
    if str_eq(id, "dashboard") {
    } else if str_eq(id, "deobfuscation") {
        push_str(&mut v, "C_isolation");
    } else if str_eq(id, "malware") {
        push_str(&mut v, "C_isolation");
        push_str(&mut v, "C_sidecar_malcheck");
    } else if str_eq(id, "usb") {
        push_str(&mut v, "C_isolation");
        push_str(&mut v, "C_sidecar_usb");
    } else {
        v = copy_strings(&spec.capabilities);
    }
    assert(strings_view(v@) =~= spec_required_for_jobs(spec.id@, strings_view(spec.capabilities@)));
    v
}

/// Whether the first check for `id` passed; false when there is none.
pub open spec fn first_available(cs: Seq<CapabilityCheck>, id: Seq<char>) -> bool
    decreases cs.len(),
{
    if cs.len() == 0 {
        false
    } else if cs[0].id@ == id {
        cs[0].available
    } else {
        first_available(cs.skip(1), id)
    }
}

fn first_available_exec(cs: &Vec<CapabilityCheck>, extra: &Vec<CapabilityCheck>, id: &str) -> (b: bool)
    ensures
        b == first_available(cs@ + extra@, id@),
{
    let ghost all = cs@ + extra@;
    assert(all.skip(0) =~= all);
    let mut k: usize = 0;
    while k < cs.len()
        invariant
            k <= cs@.len(),
            all == cs@ + extra@,
            first_available(all, id@) == first_available(all.skip(k as int), id@),
        decreases cs.len() - k,
    {
        assert(all.skip(k as int).skip(1) =~= all.skip(k + 1));
        if str_eq(cs[k].id.as_str(), id) {
            return cs[k].available;
        }
        k = k + 1;
    }
    let mut j: usize = 0;
    while j < extra.len()
        invariant
            j <= extra@.len(),
            k == cs@.len(),
            all == cs@ + extra@,
            first_available(all, id@) == first_available(all.skip(k + j), id@),
        decreases extra.len() - j,
    {
        assert(all.skip(k + j).skip(1) =~= all.skip(k + j + 1));
        if str_eq(extra[j].id.as_str(), id) {
            return extra[j].available;
        }
        j = j + 1;
    }
    assert(all.skip(k + j) =~= Seq::<CapabilityCheck>::empty());
    false
}

/// The first module with this id.
pub open spec fn module_at(modules: Seq<ModuleSpec>, id: Seq<char>, i: int) -> bool {
    0 <= i < modules.len() && modules[i].id@ == id && forall|j: int| 0 <= j < i ==> (#[trigger] modules[j]).id@ != id
}

/// One check per listed capability, in the order of the list.
pub open spec fn checks_follow(cs: Seq<CapabilityCheck>, ids: Seq<Seq<char>>) -> bool {
    cs.len() == ids.len() && forall|k: int| 0 <= k < ids.len() ==> (#[trigger] cs[k]).id@ == ids[k]
}

/// Some check in `cs` is for `id`.
pub open spec fn has_check(cs: Seq<CapabilityCheck>, id: Seq<char>) -> bool {
    exists|j: int| 0 <= j < cs.len() && (#[trigger] cs[j]).id@ == id
}

/// What a diagnosis of the module `m` is given: `checks` holds one check
/// per capability it lists, in that order, and `extra` a check of each
/// further capability its jobs need.
pub open spec fn diagnosis_inputs(m: ModuleSpec, checks: Seq<CapabilityCheck>, extra: Seq<CapabilityCheck>) -> bool {
    let listed = strings_view(m.capabilities@);
    &&& checks_follow(checks, listed)
    &&& forall|k: int|
        0 <= k < spec_required_for_jobs(m.id@, listed).len() && !listed.contains(
            #[trigger] spec_required_for_jobs(m.id@, listed)[k],
        ) ==> has_check(extra, spec_required_for_jobs(m.id@, listed)[k])
}

/// The diagnosis of a module from its manifest entry and the checks of its
/// capabilities (`checks`, in the order the entry lists them) and of any
/// further capability its jobs need (`extra`). The module can run jobs
/// when the first check of each needed capability passed.
pub fn diagnose_module(modules: &Vec<ModuleSpec>, module_id: &str, checks: Vec<CapabilityCheck>, extra: &Vec<
    CapabilityCheck,
>) -> (r: Result<ModuleDiagnosis, String>)
    requires
        forall|i: int| module_at(modules@, module_id@, i) ==> diagnosis_inputs(modules@[i], checks@, extra@),
    ensures
        (forall|i: int| 0 <= i < modules@.len() ==> (#[trigger] modules@[i]).id@ != module_id@) ==> (r matches Err(
            e,
        ) && e@ == "unknown module "@ + module_id@),
        forall|i: int|
            module_at(modules@, module_id@, i) ==> (r matches Ok(d) && d.module_id == modules@[i].id && d.status
                == modules@[i].status && d.checks@ == checks@ && d.available == forall|k: int|
                0 <= k < spec_required_for_jobs(modules@[i].id@, strings_view(modules@[i].capabilities@)).len()
                    ==> first_available(
                    checks@ + extra@,
                    #[trigger] spec_required_for_jobs(modules@[i].id@, strings_view(modules@[i].capabilities@))[k],
                )),
{
    let mut m: usize = 0;
    while m < modules.len() && !str_eq(modules[m].id.as_str(), module_id)
        invariant
            m <= modules@.len(),
            forall|j: int| 0 <= j < m ==> (#[trigger] modules@[j]).id@ != module_id@,
        decreases modules.len() - m,
    {
        m = m + 1;
    }
    if m >= modules.len() {
        let mut e = "unknown module ".to_string();
        e.append(module_id);
        return Err(e);
    }
    let spec = &modules[m];
    let required = required_for_jobs(spec);
    let ghost req = strings_view(required@);
    let mut available = true;
    let mut k: usize = 0;
    while k < required.len()
        invariant
            k <= required@.len(),
            req == strings_view(required@),
            available == forall|j: int| 0 <= j < k ==> first_available(checks@ + extra@, #[trigger] req[j]),
        decreases required.len() - k,
    {
        assert(req[k as int] == required@[k as int]@);
        if !first_available_exec(&checks, extra, required[k].as_str()) {
            available = false;
        }
        k = k + 1;
    }
    proof {
        assert forall|i: int| module_at(modules@, module_id@, i) implies i == m by {
            if i < m {
                assert(modules@[i].id@ != module_id@);
            } else if i > m {
                assert(modules@[m as int].id@ != module_id@);
            }
        }
    }
    Ok(ModuleDiagnosis { module_id: spec.id.clone(), available, status: spec.status.clone(), checks })
}

} // verus!
