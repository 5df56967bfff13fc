//! Planning of the descriptor artifacts that activate each resolved
//! device, and the decisions of the generation run: which files to
//! write, which device index to wait for, and which compression
//! modules to request.

use crate::config::{Device, DeviceKindModel, DeviceModel};
use crate::text::{
    after_last_colon, after_last_colon_of, lines_of, parse_u64, spec_i32_string, spec_lines,
    spec_parse_u64, spec_trim, spec_trim_end, spec_u64_string, str_eq, str_starts_with, trim,
    trim_end, u64_to_string,
};
use vstd::prelude::*;

verus! {

/// One artifact of a generation run, relative to the output directory:
/// a descriptor file with its full contents, or an enablement symlink.
#[derive(Clone, Debug)]
pub enum UnitAction {
    WriteFile { path: String, contents: String },
    Symlink { target: String, link: String },
}

#[verifier::ext_equal]
pub enum UnitActionModel {
    WriteFile { path: Seq<char>, contents: Seq<char> },
    Symlink { target: Seq<char>, link: Seq<char> },
}

impl View for UnitAction {
    type V = UnitActionModel;

    open spec fn view(&self) -> UnitActionModel {
        match self {
            UnitAction::WriteFile { path, contents } => UnitActionModel::WriteFile {
                path: path@,
                contents: contents@,
            },
            UnitAction::Symlink { target, link } => UnitActionModel::Symlink {
                target: target@,
                link: link@,
            },
        }
    }
}

pub open spec fn actions_view(a: Seq<UnitAction>) -> Seq<UnitActionModel> {
    Seq::new(a.len(), |i: int| a[i]@)
}

/// Every generated file opens with a notice naming the program that
/// wrote it.
pub open spec fn spec_header(exe: Seq<char>) -> Seq<char> {
    "# Automatically generated by "@ + exe + "\n\n"@
}

/// The swap-activation descriptor for a device: bound to its setup
/// service, activating `/dev/<name>` at the configured priority.
pub open spec fn spec_swap_unit_contents(name: Seq<char>, priority: i32) -> Seq<char> {
    "[Unit]\nDescription=Compressed Swap on /dev/"@ + name
        + "\nDocumentation=man:zram-generator(8) man:zram-generator.conf(5)\nRequires=systemd-zram-setup@"@
        + name + ".service\nAfter=systemd-zram-setup@"@ + name + ".service\n\n[Swap]\nWhat=/dev/"@
        + name + "\nPriority="@ + spec_i32_string(priority as int) + "\n"@
}

/// The mount descriptor for a device: bound to its setup service,
/// mounting `/dev/<name>` at the configured path.
pub open spec fn spec_mount_unit_contents(name: Seq<char>, mount_point: Seq<char>) -> Seq<char> {
    "[Unit]\nDescription=Compressed Storage on /dev/"@ + name
        + "\nDocumentation=man:zram-generator(8) man:zram-generator.conf(5)\nRequires=systemd-zram-setup@"@
        + name + ".service\nAfter=systemd-zram-setup@"@ + name + ".service\n\n[Mount]\nWhat=/dev/"@
        + name + "\nWhere=\""@ + mount_point + "\"\n"@
}

/// Every `/` of the path after the leading one becomes `-`.
pub open spec fn spec_replace_slash(s: Seq<char>) -> Seq<char> {
    Seq::new(s.len(), |i: int| if s[i] == '/' { '-' } else { s[i] })
}

/// The mount-unit name an absolute mount path maps to.
pub open spec fn spec_mount_unit_name(path: Seq<char>) -> Seq<char> {
    spec_replace_slash(path.skip(1)) + ".mount"@
}

/// Maps an absolute mount path to its mount-unit file name: the
/// leading slash dropped, every further slash replaced by a dash, and
/// the `.mount` suffix appended.
pub fn mount_unit_name(path: &str) -> (r: String)
    requires
        path@.len() >= 1,
        path@[0] == '/',
    ensures
        r@ == spec_mount_unit_name(path@),
{
    let n = path.unicode_len();
    let mut out = String::new();
    let mut seg_start: usize = 1;
    let mut i: usize = 1;
    while i < n
        invariant
            n == path@.len(),
            1 <= seg_start <= i <= n,
            out@ == spec_replace_slash(path@.subrange(1, seg_start as int)),
            forall|k: int| seg_start <= k < i ==> #[trigger] path@[k] != '/',
        decreases n - i,
    {
        if path.get_char(i) == '/' {
            let seg = path.substring_char(seg_start, i);
            out.append(seg);
            out.append("-");
            proof {
                reveal_strlit("-");
                assert(out@ =~= spec_replace_slash(path@.subrange(1, i + 1)));
            }
            seg_start = i + 1;
        }
        i += 1;
    }
    let seg = path.substring_char(seg_start, n);
    out.append(seg);
    proof {
        assert(out@ =~= spec_replace_slash(path@.subrange(1, n as int)));
        assert(path@.subrange(1, n as int) =~= path@.skip(1));
    }
    out.append(".mount");
    proof {
        assert(out@ =~= spec_mount_unit_name(path@));
    }
    out
}

/// The three artifacts of a swap-kind device: the drop-in binding its
/// setup service to the swap unit, the swap descriptor itself, and the
/// enablement symlink under the swap target's wants directory.
pub open spec fn spec_swap_actions(name: Seq<char>, priority: i32, exe: Seq<char>) -> Seq<
    UnitActionModel,
> {
    seq![
        UnitActionModel::WriteFile {
            path: "systemd-zram-setup@"@ + name + ".service.d/bindsto-swap.conf"@,
            contents: spec_header(exe) + "[Unit]\nBindsTo=dev-%i.swap\n"@,
        },
        UnitActionModel::WriteFile {
            path: "dev-"@ + name + ".swap"@,
            contents: spec_header(exe) + spec_swap_unit_contents(name, priority),
        },
        UnitActionModel::Symlink {
            target: "../dev-"@ + name + ".swap"@,
            link: "swap.target.wants/dev-"@ + name + ".swap"@,
        },
    ]
}

/// The three artifacts of a mount-kind device: the drop-in binding its
/// setup service to the mount unit, the mount descriptor, and the
/// enablement symlink under the local-filesystem target's wants
/// directory.
pub open spec fn spec_mount_actions(name: Seq<char>, mount_point: Seq<char>, exe: Seq<char>) -> Seq<
    UnitActionModel,
> {
    let mn = spec_mount_unit_name(mount_point);
    seq![
        UnitActionModel::WriteFile {
            path: "systemd-zram-setup@"@ + name + ".service.d/bindsto-mount.conf"@,
            contents: spec_header(exe) + "[Unit]\nBindsTo="@ + mn + "\n"@,
        },
        UnitActionModel::WriteFile {
            path: mn,
            contents: spec_header(exe) + spec_mount_unit_contents(name, mount_point),
        },
        UnitActionModel::Symlink { target: "../"@ + mn, link: "local-fs.target.wants/"@ + mn },
    ]
}

/// The artifacts one device contributes, by its kind.
pub open spec fn spec_device_actions(d: DeviceModel, exe: Seq<char>) -> Seq<UnitActionModel> {
    match d.kind {
        DeviceKindModel::Swap { priority } => spec_swap_actions(d.name, priority, exe),
        DeviceKindModel::Mount { path } => spec_mount_actions(d.name, path, exe),
    }
}

fn concat3(a: &str, b: &str, c: &str) -> (r: String)
    ensures
        r@ == a@ + b@ + c@,
{
    let mut s = String::from_str(a);
    s.append(b);
    s.append(c);
    proof {
        assert(s@ =~= a@ + b@ + c@);
    }
    s
}

/// Builds the swap descriptor's contents.
fn swap_unit_contents(name: &str, priority: i32) -> (r: String)
    ensures
        r@ == spec_swap_unit_contents(name@, priority),
{
    let mut s = String::from_str("[Unit]\nDescription=Compressed Swap on /dev/");
    s.append(name);
    s.append(
        "\nDocumentation=man:zram-generator(8) man:zram-generator.conf(5)\nRequires=systemd-zram-setup@",
    );
    s.append(name);
    s.append(".service\nAfter=systemd-zram-setup@");
    s.append(name);
    s.append(".service\n\n[Swap]\nWhat=/dev/");
    s.append(name);
    s.append("\nPriority=");
    let p = crate::text::i32_to_string(priority);
    s.append(p.as_str());
    s.append("\n");
    proof {
        assert(s@ =~= spec_swap_unit_contents(name@, priority));
    }
    s
}

/// Builds the mount descriptor's contents.
fn mount_unit_contents(name: &str, mount_point: &str) -> (r: String)
    ensures
        r@ == spec_mount_unit_contents(name@, mount_point@),
{
    let mut s = String::from_str("[Unit]\nDescription=Compressed Storage on /dev/");
    s.append(name);
    s.append(
        "\nDocumentation=man:zram-generator(8) man:zram-generator.conf(5)\nRequires=systemd-zram-setup@",
    );
    s.append(name);
    s.append(".service\nAfter=systemd-zram-setup@");
    s.append(name);
    s.append(".service\n\n[Mount]\nWhat=/dev/");
    s.append(name);
    s.append("\nWhere=\"");
    s.append(mount_point);
    s.append("\"\n");
    proof {
        assert(s@ =~= spec_mount_unit_contents(name@, mount_point@));
    }
    s
}

fn with_header(exe_name: &str, contents: &str) -> (r: String)
    ensures
        r@ == spec_header(exe_name@) + contents@,
{
    let mut s = String::from_str("# Automatically generated by ");
    s.append(exe_name);
    s.append("\n\n");
    s.append(contents);
    proof {
        assert(s@ =~= spec_header(exe_name@) + contents@);
    }
    s
}

/// Plans the artifacts of one swap-kind device.
pub fn handle_zram_swap(device: &Device, exe_name: &str) -> (r: Vec<UnitAction>)
    requires
        device@.kind is Swap,
    ensures
        actions_view(r@) == spec_device_actions(device@, exe_name@),
{
    let priority: i32 = match &device.kind {
        crate::config::DeviceKind::Swap { priority } => *priority,
        crate::config::DeviceKind::Mount { .. } => 0,
    };
    let dropin_path = concat3("systemd-zram-setup@", device.name.as_str(), ".service.d/bindsto-swap.conf");
    let dropin_contents = with_header(exe_name, "[Unit]\nBindsTo=dev-%i.swap\n");
    let swap_name = concat3("dev-", device.name.as_str(), ".swap");
    let body = swap_unit_contents(device.name.as_str(), priority);
    let unit_contents = with_header(exe_name, body.as_str());
    let target = concat3("../dev-", device.name.as_str(), ".swap");
    let link = concat3("swap.target.wants/dev-", device.name.as_str(), ".swap");
    let mut out: Vec<UnitAction> = Vec::new();
    out.push(UnitAction::WriteFile { path: dropin_path, contents: dropin_contents });
    out.push(UnitAction::WriteFile { path: swap_name, contents: unit_contents });
    out.push(UnitAction::Symlink { target, link });
    proof {
        assert(actions_view(out@) =~~= spec_device_actions(device@, exe_name@));
    }
    out
}

/// Plans the artifacts of one mount-kind device.
pub fn handle_zram_mount_point(device: &Device, exe_name: &str) -> (r: Vec<UnitAction>)
    requires
        device@.kind matches DeviceKindModel::Mount { path } && path.len() >= 1 && path[0] == '/',
    ensures
        actions_view(r@) == spec_device_actions(device@, exe_name@),
{
    let mount_point: &String = match &device.kind {
        crate::config::DeviceKind::Mount { path } => path,
        crate::config::DeviceKind::Swap { .. } => {
            proof {
                assert(false);
            }
            &device.name
        },
    };
    let mount_name = mount_unit_name(mount_point.as_str());
    let dropin_path = concat3("systemd-zram-setup@", device.name.as_str(), ".service.d/bindsto-mount.conf");
    let mut dropin_body = String::from_str("[Unit]\nBindsTo=");
    dropin_body.append(mount_name.as_str());
    dropin_body.append("\n");
    let dropin_contents = with_header(exe_name, dropin_body.as_str());
    let body = mount_unit_contents(device.name.as_str(), mount_point.as_str());
    let unit_contents = with_header(exe_name, body.as_str());
    let mut target = String::from_str("../");
    target.append(mount_name.as_str());
    let mut link = String::from_str("local-fs.target.wants/");
    link.append(mount_name.as_str());
    let mut out: Vec<UnitAction> = Vec::new();
    out.push(
        UnitAction::WriteFile {
            path: dropin_path,
            contents: dropin_contents,
        },
    );
    out.push(UnitAction::WriteFile { path: mount_name, contents: unit_contents });
    out.push(UnitAction::Symlink { target, link });
    proof {
        assert(actions_view(out@) =~~= spec_device_actions(device@, exe_name@));
    }
    out
}

/// The artifacts of a whole generation run: each device's, in input
/// order.
pub open spec fn spec_generation_plan(devs: Seq<DeviceModel>, exe: Seq<char>) -> Seq<
    UnitActionModel,
>
    decreases devs.len(),
{
    if devs.len() == 0 {
        Seq::empty()
    } else {
        spec_device_actions(devs[0], exe) + spec_generation_plan(devs.drop_first(), exe)
    }
}

/// Plans every resolved device's artifacts, in input order.
pub fn generation_plan(devices: &Vec<Device>, exe_name: &str) -> (r: Vec<UnitAction>)
    requires
        forall|i: int|
            0 <= i < devices@.len() ==> ((#[trigger] devices@[i])@.kind matches
                DeviceKindModel::Mount { path } ==> path.len() >= 1 && path[0] == '/'),
    ensures
        actions_view(r@) == spec_generation_plan(crate::config::devices_view(devices@), exe_name@),
{
    let ghost dv = crate::config::devices_view(devices@);
    proof {
        assert(dv.skip(0) =~= dv);
    }
    let n = devices.len();
    let mut out: Vec<UnitAction> = Vec::new();
    let mut i: usize = 0;
    while i < n
        invariant
            n == devices@.len(),
            dv == crate::config::devices_view(devices@),
            forall|j: int|
                0 <= j < devices@.len() ==> ((#[trigger] devices@[j])@.kind matches
                    DeviceKindModel::Mount { path } ==> path.len() >= 1 && path[0] == '/'),
            0 <= i <= n,
            spec_generation_plan(dv, exe_name@) == actions_view(out@) + spec_generation_plan(
                dv.skip(i as int),
                exe_name@,
            ),
        decreases n - i,
    {
        proof {
            assert(dv.skip(i as int)[0] == dv[i as int]);
            assert(dv.skip(i as int).drop_first() =~= dv.skip(i + 1));
            assert(dv[i as int] == devices@[i as int]@);
        }
        let ghost prev = actions_view(out@);
        let mut actions = handle_device(&devices[i], exe_name);
        let ghost added = actions_view(actions@);
        out.append(&mut actions);
        proof {
            assert(actions_view(out@) =~= prev + added);
            assert((prev + added) + spec_generation_plan(dv.skip(i + 1), exe_name@) =~= prev + (
            added + spec_generation_plan(dv.skip(i + 1), exe_name@)));
        }
        i += 1;
    }
    proof {
        assert(spec_generation_plan(dv.skip(n as int), exe_name@) =~= Seq::<
            UnitActionModel,
        >::empty());
        assert(actions_view(out@) + Seq::<UnitActionModel>::empty() =~= actions_view(out@));
    }
    out
}

proof fn lemma_push_to_set<A>(s: Seq<A>, x: A)
    ensures
        s.push(x).to_set() =~= s.to_set().insert(x),
{
    assert forall|y: A| s.push(x).to_set().contains(y) implies s.to_set().insert(x).contains(
        y,
    ) by {
        let i = choose|i: int| 0 <= i < s.push(x).len() && s.push(x)[i] == y;
        if i < s.len() {
            assert(s[i] == y);
        }
    }
    assert forall|y: A| s.to_set().insert(x).contains(y) implies s.push(x).to_set().contains(
        y,
    ) by {
        if y == x {
            assert(s.push(x)[s.len() as int] == y);
        } else {
            let i = choose|i: int| 0 <= i < s.len() && s[i] == y;
            assert(s.push(x)[i] == y);
        }
    }
}

/// The compressor names a kernel crypto listing declares: on every
/// line beginning with `name`, the text after the line's last colon,
/// trimmed of whitespace; duplicates collapse into one set.
pub open spec fn spec_compressors_of_lines(ls: Seq<Seq<char>>) -> Set<Seq<char>>
    decreases ls.len(),
{
    if ls.len() == 0 {
        Set::empty()
    } else {
        let rest = spec_compressors_of_lines(ls.drop_first());
        if "name"@.is_prefix_of(ls[0]) {
            rest.insert(spec_trim(after_last_colon(ls[0])))
        } else {
            rest
        }
    }
}

pub open spec fn spec_known_compressors(s: Seq<char>) -> Set<Seq<char>> {
    spec_compressors_of_lines(spec_lines(s))
}

/// Whether some element of the vector holds exactly these characters.
pub fn vec_contains_str(v: &Vec<String>, s: &str) -> (r: bool)
    ensures
        r == v.deep_view().to_set().contains(s@),
{
    let n = v.len();
    let mut i: usize = 0;
    while i < n
        invariant
            n == v@.len(),
            0 <= i <= n,
            forall|j: int| 0 <= j < i ==> v.deep_view()[j] != s@,
        decreases n - i,
    {
        if str_eq(v[i].as_str(), s) {
            proof {
                assert(v.deep_view()[i as int] == s@);
            }
            return true;
        }
        i += 1;
    }
    proof {
        if v.deep_view().to_set().contains(s@) {
            let j = choose|j: int| 0 <= j < v.deep_view().len() && v.deep_view()[j] == s@;
            assert(v.deep_view()[j] != s@);
        }
    }
    false
}

/// Extracts the distinct compressor names a kernel crypto listing
/// declares, in first-appearance order.
pub fn parse_known_compressors(proc_crypto: &str) -> (r: Vec<String>)
    ensures
        r.deep_view().to_set() == spec_known_compressors(proc_crypto@),
        forall|i: int, j: int|
            0 <= i < j < r.deep_view().len() ==> r.deep_view()[i] != r.deep_view()[j],
{
    let lines = lines_of(proc_crypto);
    let ghost lv = lines.deep_view();
    proof {
        assert(lv.skip(0) =~= lv);
    }
    let n = lines.len();
    let mut out: Vec<String> = Vec::new();
    let mut i: usize = 0;
    while i < n
        invariant
            n == lines@.len(),
            lv == lines.deep_view(),
            lv == spec_lines(proc_crypto@),
            0 <= i <= n,
            spec_compressors_of_lines(lv) =~= out.deep_view().to_set() + spec_compressors_of_lines(
                lv.skip(i as int),
            ),
            forall|a: int, b: int|
                0 <= a < b < out.deep_view().len() ==> out.deep_view()[a] != out.deep_view()[b],
        decreases n - i,
    {
        proof {
            assert(lv.skip(i as int)[0] == lv[i as int]);
            assert(lv.skip(i as int).drop_first() =~= lv.skip(i + 1));
            assert(lv[i as int] == lines@[i as int]@);
        }
        let line = lines[i].as_str();
        if str_starts_with(line, "name") {
            let value = trim(after_last_colon_of(line));
            let ghost prev = out.deep_view();
            if !vec_contains_str(&out, value) {
                out.push(String::from_str(value));
                proof {
                    assert(out.deep_view() =~= prev.push(value@));
                    lemma_push_to_set(prev, value@);
                    assert(out.deep_view().to_set() =~= prev.to_set().insert(value@));
                    assert forall|a: int, b: int|
                        0 <= a < b < out.deep_view().len() implies out.deep_view()[a]
                        != out.deep_view()[b] by {
                        if b == prev.len() as int {
                            assert(!prev.to_set().contains(value@));
                            assert(prev[a] != value@);
                        }
                    }
                }
            }
            proof {
                assert(out.deep_view().to_set() =~= prev.to_set().insert(value@));
                assert(spec_compressors_of_lines(lv.skip(i as int))
                    == spec_compressors_of_lines(lv.skip(i + 1)).insert(value@));
                assert(out.deep_view().to_set() + spec_compressors_of_lines(lv.skip(i + 1)) =~= (
                prev.to_set() + spec_compressors_of_lines(lv.skip(i as int))));
            }
        }
        i += 1;
    }
    proof {
        assert(spec_compressors_of_lines(lv.skip(n as int)) =~= Set::<Seq<char>>::empty());
        assert(out.deep_view().to_set() + Set::<Seq<char>>::empty() =~= out.deep_view().to_set());
    }
    out
}

/// The distinct compression algorithms the resolved devices request.
pub open spec fn spec_requested_compressors(devs: Seq<DeviceModel>) -> Set<Seq<char>>
    decreases devs.len(),
{
    if devs.len() == 0 {
        Set::empty()
    } else {
        let rest = spec_requested_compressors(devs.drop_first());
        match devs[0].compression_algorithm {
            Some(a) => rest.insert(a),
            None => rest,
        }
    }
}

/// Collects the distinct compression algorithms the devices request,
/// in first-appearance order.
pub fn requested_compressors(devices: &Vec<Device>) -> (r: Vec<String>)
    ensures
        r.deep_view().to_set() == spec_requested_compressors(crate::config::devices_view(
            devices@,
        )),
        forall|i: int, j: int|
            0 <= i < j < r.deep_view().len() ==> r.deep_view()[i] != r.deep_view()[j],
{
    let ghost dv = crate::config::devices_view(devices@);
    proof {
        assert(dv.skip(0) =~= dv);
    }
    let n = devices.len();
    let mut out: Vec<String> = Vec::new();
    let mut i: usize = 0;
    while i < n
        invariant
            n == devices@.len(),
            dv == crate::config::devices_view(devices@),
            0 <= i <= n,
            spec_requested_compressors(dv) =~= out.deep_view().to_set()
                + spec_requested_compressors(dv.skip(i as int)),
            forall|a: int, b: int|
                0 <= a < b < out.deep_view().len() ==> out.deep_view()[a] != out.deep_view()[b],
        decreases n - i,
    {
        proof {
            assert(dv.skip(i as int)[0] == dv[i as int]);
            assert(dv.skip(i as int).drop_first() =~= dv.skip(i + 1));
            assert(dv[i as int] == devices@[i as int]@);
        }
        match &devices[i].compression_algorithm {
            None => {},
            Some(alg) => {
                let ghost prev = out.deep_view();
                if !vec_contains_str(&out, alg.as_str()) {
                    out.push(alg.clone());
                    proof {
                        assert(out.deep_view() =~= prev.push(alg@));
                        lemma_push_to_set(prev, alg@);
                        assert forall|a: int, b: int|
                            0 <= a < b < out.deep_view().len() implies out.deep_view()[a]
                            != out.deep_view()[b] by {
                            if b == prev.len() as int {
                                assert(!prev.to_set().contains(alg@));
                                assert(prev[a] != alg@);
                            }
                        }
                    }
                }
                proof {
                    assert(out.deep_view().to_set() =~= prev.to_set().insert(alg@));
                    assert(out.deep_view().to_set() + spec_requested_compressors(dv.skip(i + 1))
                        =~= (prev.to_set() + spec_requested_compressors(dv.skip(i as int))));
                }
            },
        }
        i += 1;
    }
    proof {
        assert(spec_requested_compressors(dv.skip(n as int)) =~= Set::<Seq<char>>::empty());
        assert(out.deep_view().to_set() + Set::<Seq<char>>::empty() =~= out.deep_view().to_set());
    }
    out
}

/// The requested compressors that the kernel does not already know:
/// exactly the set difference, kept distinct.
pub fn missing_compressors(requested: &Vec<String>, known: &Vec<String>) -> (r: Vec<String>)
    ensures
        r.deep_view().to_set() == requested.deep_view().to_set().difference(
            known.deep_view().to_set(),
        ),
        forall|i: int, j: int|
            0 <= i < j < r.deep_view().len() ==> r.deep_view()[i] != r.deep_view()[j],
{
    let ghost rv = requested.deep_view();
    proof {
        assert(rv.skip(0) =~= rv);
    }
    let n = requested.len();
    let mut out: Vec<String> = Vec::new();
    let mut i: usize = 0;
    while i < n
        invariant
            n == requested@.len(),
            rv == requested.deep_view(),
            0 <= i <= n,
            out.deep_view().to_set() =~= rv.take(i as int).to_set().difference(
                known.deep_view().to_set(),
            ),
            forall|a: int, b: int|
                0 <= a < b < out.deep_view().len() ==> out.deep_view()[a] != out.deep_view()[b],
        decreases n - i,
    {
        proof {
            assert(rv.take(i + 1).drop_last() =~= rv.take(i as int));
            assert(rv.take(i + 1).last() == rv[i as int]);
            assert(rv[i as int] == requested@[i as int]@);
        }
        let item = &requested[i];
        let ghost prev = out.deep_view();
        if !vec_contains_str(known, item.as_str()) && !vec_contains_str(&out, item.as_str()) {
            out.push(item.clone());
            proof {
                assert(out.deep_view() =~= prev.push(item@));
                lemma_push_to_set(prev, item@);
                assert forall|a: int, b: int|
                    0 <= a < b < out.deep_view().len() implies out.deep_view()[a]
                    != out.deep_view()[b] by {
                    if b == prev.len() as int {
                        assert(!prev.to_set().contains(item@));
                        assert(prev[a] != item@);
                    }
                }
            }
        }
        proof {
            lemma_push_to_set(rv.take(i as int), rv[i as int]);
            assert(rv.take(i + 1) =~= rv.take(i as int).push(rv[i as int]));
            assert(out.deep_view().to_set() =~= rv.take(i + 1).to_set().difference(
                known.deep_view().to_set(),
            ));
        }
        i += 1;
    }
    proof {
        assert(rv.take(n as int) =~= rv);
    }
    out
}

/// The kernel module that provides a compression algorithm.
pub fn compressor_module_name(compressor: &str) -> (r: String)
    ensures
        r@ == "crypto-"@ + compressor@,
{
    let mut s = String::from_str("crypto-");
    s.append(compressor);
    s
}

/// The largest kernel device index any resolved device names; 0 when
/// the list is empty.
pub open spec fn spec_max_index(devs: Seq<DeviceModel>) -> int
    decreases devs.len(),
{
    if devs.len() == 0 {
        0
    } else {
        let rest = spec_max_index(devs.drop_first());
        let idx = crate::config::zram_index(devs[0].name) as int;
        if idx > rest {
            idx
        } else {
            rest
        }
    }
}

/// The highest device index the kernel must provide for the resolved
/// devices.
pub fn max_device_index(devices: &Vec<Device>) -> (r: u64)
    requires
        forall|i: int| 0 <= i < devices@.len() ==> (#[trigger] devices@[i]).wf(),
    ensures
        r == spec_max_index(crate::config::devices_view(devices@)),
{
    let ghost dv = crate::config::devices_view(devices@);
    proof {
        assert(dv.skip(0) =~= dv);
    }
    let n = devices.len();
    let mut acc: u64 = 0;
    let mut i: usize = 0;
    while i < n
        invariant
            n == devices@.len(),
            dv == crate::config::devices_view(devices@),
            forall|j: int| 0 <= j < devices@.len() ==> (#[trigger] devices@[j]).wf(),
            0 <= i <= n,
            spec_max_index(dv) == (if acc as int >= spec_max_index(dv.skip(i as int)) {
                acc as int
            } else {
                spec_max_index(dv.skip(i as int))
            }),
        decreases n - i,
    {
        proof {
            assert(dv.skip(i as int)[0] == dv[i as int]);
            assert(dv.skip(i as int).drop_first() =~= dv.skip(i + 1));
            assert(dv[i as int] == devices@[i as int]@);
            assert(devices@[i as int].wf());
        }
        let idx = match crate::config::device_index(devices[i].name.as_str()) {
            Some(x) => x,
            None => {
                proof {
                    assert(false);
                }
                0
            },
        };
        if idx > acc {
            acc = idx;
        }
        i += 1;
    }
    proof {
        assert(dv.skip(n as int) =~= Seq::<DeviceModel>::empty());
    }
    acc
}

/// The kernel's name for the device at an index.
pub fn zram_device_name(index: u64) -> (r: String)
    ensures
        r@ == "zram"@ + spec_u64_string(index as int),
{
    let mut s = String::from_str("zram");
    let digits = u64_to_string(index);
    s.append(digits.as_str());
    s
}

/// Reads the device index the kernel's add-device attribute returned:
/// the reply with trailing whitespace removed, as a number.
pub fn parse_hot_add_reply(reply: &str) -> (r: Option<u64>)
    ensures
        r == spec_parse_u64(spec_trim_end(reply@)),
{
    parse_u64(trim_end(reply))
}

/// Whether the device-count poll must go on: the most recently created
/// index has not yet reached the highest configured one.
pub fn hot_add_pending(last_created: u64, max_index: u64) -> (r: bool)
    ensures
        r == (last_created < max_index),
{
    last_created < max_index
}

/// Plans the artifacts one device contributes to the generation run.
pub fn handle_device(device: &Device, exe_name: &str) -> (r: Vec<UnitAction>)
    requires
        device@.kind matches DeviceKindModel::Mount { path } ==> path.len() >= 1 && path[0] == '/',
    ensures
        actions_view(r@) == spec_device_actions(device@, exe_name@),
{
    if device.is_swap() {
        handle_zram_swap(device, exe_name)
    } else {
        handle_zram_mount_point(device, exe_name)
    }
}

} // verus!
