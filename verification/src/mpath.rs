//! Multipath topology: the devices that a `multipath -ll` listing
//! describes, each with the paths that back it.

use vstd::prelude::*;
use crate::text::{
    chars_of, find_text, join, join_fields, lines_view, occurs_at, slice_of, split_tokens,
    starts_with, string_of, strip_brackets, tokens, trim, trimmed, unbracketed, views,
};

verus! {

/// The pattern that the name of a path device matches: an `sd` disk or an
/// NVMe namespace.
pub const DEVICE_PATTERN: &'static str = "^(sd[a-zA-Z0-9]+|nvme\\d+n\\d+)$";

/// One path of a multipath device.
#[derive(Debug, PartialEq, Eq)]
pub struct MpathPath {
    /// The bus address, such as `1:0:0:1`.
    pub bus: String,
    /// The device name, such as `sdb`.
    pub dev_name: String,
    /// Major and minor number, such as `8:16`.
    pub major_minor: String,
    /// The rest of the line: the state of the path.
    pub status: String,
}

/// The mathematical value of an `MpathPath`.
pub struct PathModel {
    pub bus: Seq<char>,
    pub dev_name: Seq<char>,
    pub major_minor: Seq<char>,
    pub status: Seq<char>,
}

impl View for MpathPath {
    type V = PathModel;

    open spec fn view(&self) -> PathModel {
        PathModel {
            bus: self.bus@,
            dev_name: self.dev_name@,
            major_minor: self.major_minor@,
            status: self.status@,
        }
    }
}

/// One multipath device with its paths.
#[derive(Debug, PartialEq, Eq)]
pub struct MultipathDevice {
    /// The alias, such as `mpathw`.
    pub name: String,
    /// The world-wide identifier.
    pub wwid: String,
    /// The device-mapper name, such as `dm-37`.
    pub dm_name: String,
    /// Vendor and model, such as `HPE,MSA 2050 SAN`.
    pub vendor_model: String,
    /// The size line, such as `size=9.3G features='0' hwhandler='0' wp=rw`.
    pub size: String,
    pub paths: Vec<MpathPath>,
}

/// The mathematical value of a `MultipathDevice`.
pub struct DeviceModel {
    pub name: Seq<char>,
    pub wwid: Seq<char>,
    pub dm_name: Seq<char>,
    pub vendor_model: Seq<char>,
    pub size: Seq<char>,
    pub paths: Seq<PathModel>,
}

/// The views of a run of paths.
pub open spec fn paths_view(p: Seq<MpathPath>) -> Seq<PathModel> {
    Seq::new(p.len(), |i: int| p[i]@)
}

impl View for MultipathDevice {
    type V = DeviceModel;

    open spec fn view(&self) -> DeviceModel {
        DeviceModel {
            name: self.name@,
            wwid: self.wwid@,
            dm_name: self.dm_name@,
            vendor_model: self.vendor_model@,
            size: self.size@,
            paths: paths_view(self.paths@),
        }
    }
}

/// The views of a run of devices.
pub open spec fn devices_view(d: Seq<MultipathDevice>) -> Seq<DeviceModel> {
    Seq::new(d.len(), |i: int| d[i]@)
}

/// The result of compiling `pattern` as a regular expression and searching
/// `text` for a match: whether there is one, or nothing where the pattern
/// does not compile.
pub uninterp spec fn regex_match(pattern: Seq<char>, text: Seq<char>) -> Option<bool>;

/// Compiles `pattern` with `regex::Regex::new` and asks `Regex::is_match`
/// whether `text` holds a match. The result is taken to depend on the two
/// strings alone; nothing more is claimed of it.
#[verifier::external_body]
fn pattern_matches(pattern: &str, text: &str) -> (r: Option<bool>)
    ensures
        r == regex_match(pattern@, text@),
{
    match regex::Regex::new(pattern) {
        Ok(re) => Some(re.is_match(text)),
        Err(_) => None,
    }
}

/// Whether `text` is the name of a path device.
pub open spec fn is_device_name(text: Seq<char>) -> bool {
    regex_match(DEVICE_PATTERN@, text) == Some(true)
}

/// The place of the first device name among `parts` from place `k` on.
pub open spec fn first_device_from(parts: Seq<Seq<char>>, k: int) -> Option<int>
    decreases parts.len() - k,
{
    if k < 0 || k >= parts.len() {
        None
    } else if is_device_name(parts[k]) {
        Some(k)
    } else {
        first_device_from(parts, k + 1)
    }
}

/// The place of the first device name among `parts`.
pub open spec fn first_device(parts: Seq<Seq<char>>) -> Option<int> {
    first_device_from(parts, 0)
}

/// The path that the tokens `parts` of a line describe when the device
/// name stands at place `at`: the token before it is the bus address, the
/// token after it the major and minor number, and the rest the state.
/// There is none where the line lacks one of these.
pub open spec fn path_of(parts: Seq<Seq<char>>, at: Option<int>) -> Option<PathModel> {
    match at {
        Some(i) => if 1 <= i && i + 2 < parts.len() {
            Some(
                PathModel {
                    bus: parts[i - 1],
                    dev_name: parts[i],
                    major_minor: parts[i + 1],
                    status: join(parts.skip(i + 2), ' '),
                },
            )
        } else {
            None
        },
        None => None,
    }
}

/// The start of the first line of a device.
pub open spec fn mpath_prefix() -> Seq<char> {
    seq!['m', 'p', 'a', 't', 'h']
}

/// The start of the size line of a device.
pub open spec fn size_prefix() -> Seq<char> {
    seq!['s', 'i', 'z', 'e', '=']
}

/// The device that the first line of its listing announces: alias,
/// identifier without its brackets, device-mapper name, and the rest as
/// vendor and model. What the line lacks is left empty.
pub open spec fn header_of(line: Seq<char>) -> DeviceModel {
    let f = tokens(line);
    DeviceModel {
        name: if f.len() > 0 {
            f[0]
        } else {
            Seq::empty()
        },
        wwid: if f.len() > 1 {
            unbracketed(f[1])
        } else {
            Seq::empty()
        },
        dm_name: if f.len() > 2 {
            f[2]
        } else {
            Seq::empty()
        },
        vendor_model: if f.len() > 3 {
            join(f.skip(3), ' ')
        } else {
            Seq::empty()
        },
        size: Seq::empty(),
        paths: Seq::empty(),
    }
}

/// Where the reading of a listing stands: the devices that are complete,
/// and the one whose lines are being read.
pub struct Listing {
    pub done: Seq<DeviceModel>,
    pub current: Option<DeviceModel>,
}

/// The devices of a listing, the one being read included.
pub open spec fn flushed(l: Listing) -> Seq<DeviceModel> {
    match l.current {
        Some(d) => l.done.push(d),
        None => l.done,
    }
}

/// The listing after one more line was read. A blank line changes nothing;
/// a line that begins with `mpath` begins a device; a line whose first
/// token begins with `size=` is the size line of the device being read;
/// any other line adds a path to it, if the line describes one.
pub open spec fn listing_step(l: Listing, line: Seq<char>) -> Listing {
    let f = tokens(line);
    if f.len() == 0 {
        l
    } else if mpath_prefix().is_prefix_of(line) {
        Listing { done: flushed(l), current: Some(header_of(line)) }
    } else if size_prefix().is_prefix_of(f[0]) {
        match l.current {
            Some(d) => Listing {
                done: l.done,
                current: Some(DeviceModel { size: trimmed(line), ..d }),
            },
            None => l,
        }
    } else {
        match (path_of(f, first_device(f)), l.current) {
            (Some(p), Some(d)) => Listing {
                done: l.done,
                current: Some(DeviceModel { paths: d.paths.push(p), ..d }),
            },
            _ => l,
        }
    }
}

/// The listing after all of `lines` were read, in order.
pub open spec fn listing_of(lines: Seq<Seq<char>>) -> Listing
    decreases lines.len(),
{
    if lines.len() == 0 {
        Listing { done: Seq::empty(), current: None }
    } else {
        listing_step(listing_of(lines.drop_last()), lines.last())
    }
}

/// The mathematical value of an optional path.
pub open spec fn path_view(p: Option<MpathPath>) -> Option<PathModel> {
    match p {
        Some(p) => Some(p@),
        None => None,
    }
}

/// The mathematical value of an optional place.
pub open spec fn place_view(p: Option<usize>) -> Option<int> {
    match p {
        Some(i) => Some(i as int),
        None => None,
    }
}

/// Finds the first token that is the name of a path device.
pub fn find_device(parts: &Vec<Vec<char>>) -> (r: Option<usize>)
    ensures
        place_view(r) == first_device(views(parts@)),
        r matches Some(i) ==> i < parts@.len(),
{
    let mut k: usize = 0;
    while k < parts.len()
        invariant
            k <= parts.len(),
            first_device(views(parts@)) == first_device_from(views(parts@), k as int),
        decreases parts.len() - k,
    {
        let text = string_of(&parts[k]);
        assert(views(parts@)[k as int] == text@);
        match pattern_matches(DEVICE_PATTERN, text.as_str()) {
            Some(true) => {
                return Some(k);
            },
            _ => {},
        }
        k += 1;
    }
    None
}

/// The tokens of `parts` from place `from` on, joined by single spaces.
fn join_rest(parts: &Vec<Vec<char>>, from: usize) -> (s: String)
    requires
        from <= parts.len(),
    ensures
        s@ == join(views(parts@).skip(from as int), ' '),
{
    let mut rest: Vec<Vec<char>> = Vec::new();
    let mut i: usize = from;
    assert(views(rest@) =~= views(parts@).skip(from as int).take(0));
    while i < parts.len()
        invariant
            from <= i <= parts.len(),
            views(rest@) == views(parts@).skip(from as int).take(i - from),
        decreases parts.len() - i,
    {
        let ghost before = views(rest@);
        rest.push(parts[i].clone());
        assert(views(rest@) =~= before.push(parts@[i as int]@));
        assert(views(parts@).skip(from as int).take(i + 1 - from) =~= views(parts@).skip(
            from as int,
        ).take(i - from).push(parts@[i as int]@));
        i += 1;
    }
    assert(views(parts@).skip(from as int).take(i - from) =~= views(parts@).skip(from as int));
    let joined = join_fields(&rest, ' ');
    string_of(&joined)
}

/// Reads the path that the tokens of one line describe, given the place
/// `at` at which the name of the path device was found.
pub fn path_at(parts: &Vec<Vec<char>>, at: Option<usize>) -> (r: Option<MpathPath>)
    ensures
        path_view(r) == path_of(views(parts@), place_view(at)),
{
    match at {
        Some(i) => {
            if i >= 1 && i < parts.len() && parts.len() - i > 2 {
                let ghost p = views(parts@);
                assert(p[i - 1] == parts@[i - 1]@ && p[i as int] == parts@[i as int]@ && p[i + 1]
                    == parts@[i + 1]@);
                Some(
                    MpathPath {
                        bus: string_of(&parts[i - 1]),
                        dev_name: string_of(&parts[i]),
                        major_minor: string_of(&parts[i + 1]),
                        status: join_rest(parts, i + 2),
                    },
                )
            } else {
                None
            }
        },
        None => None,
    }
}

/// Reads the first line of the listing of a device.
fn header(parts: &Vec<Vec<char>>) -> (d: MultipathDevice)
    ensures
        d@.name == (if parts@.len() > 0 {
            parts@[0]@
        } else {
            Seq::empty()
        }),
        d@.wwid == (if parts@.len() > 1 {
            unbracketed(parts@[1]@)
        } else {
            Seq::empty()
        }),
        d@.dm_name == (if parts@.len() > 2 {
            parts@[2]@
        } else {
            Seq::empty()
        }),
        d@.vendor_model == (if parts@.len() > 3 {
            join(views(parts@).skip(3), ' ')
        } else {
            Seq::empty()
        }),
        d@.size == Seq::<char>::empty(),
        d@.paths == Seq::<PathModel>::empty(),
{
    let name = if parts.len() > 0 { string_of(&parts[0]) } else { String::new() };
    let wwid = if parts.len() > 1 {
        string_of(&strip_brackets(&parts[1]))
    } else {
        String::new()
    };
    let dm_name = if parts.len() > 2 { string_of(&parts[2]) } else { String::new() };
    let vendor_model = if parts.len() > 3 { join_rest(parts, 3) } else { String::new() };
    let d = MultipathDevice {
        name,
        wwid,
        dm_name,
        vendor_model,
        size: String::new(),
        paths: Vec::new(),
    };
    assert(d@.paths =~= Seq::<PathModel>::empty());
    d
}

/// The two columns that a report shows of a device, from its vendor and
/// model and its size line. Where the vendor and model text itself holds
/// `size=`, the first column is what stands before that, blanks at its
/// ends removed, and the second is `size=` alone. Otherwise the columns
/// are the two texts as they are.
pub open spec fn columns_of(vendor_model: Seq<char>, size: Seq<char>) -> (Seq<char>, Seq<char>) {
    if exists|i: int| occurs_at(vendor_model, size_prefix(), i) {
        let i = choose|i: int|
            occurs_at(vendor_model, size_prefix(), i) && forall|j: int|
                0 <= j < i ==> !occurs_at(vendor_model, size_prefix(), j);
        (trimmed(vendor_model.take(i)), size_prefix())
    } else {
        (vendor_model, size)
    }
}

impl MultipathDevice {
    /// The device and attribute columns that a report shows of the device.
    pub fn columns(&self) -> (r: (String, String))
        ensures
            (r.0@, r.1@) == columns_of(self@.vendor_model, self@.size),
    {
        let text = chars_of(self.vendor_model.as_str());
        let pat = chars_of("size=");
        proof {
            reveal_strlit("size=");
            assert(pat@ =~= size_prefix());
        }
        match find_text(&text, &pat) {
            Some(i) => {
                proof {
                    let first = choose|k: int|
                        occurs_at(text@, size_prefix(), k) && forall|j: int|
                            0 <= j < k ==> !occurs_at(text@, size_prefix(), j);
                    assert(first == i as int) by {
                        if first < i {
                            assert(!occurs_at(text@, size_prefix(), first));
                        } else if i < first {
                            assert(!occurs_at(text@, size_prefix(), i as int));
                        }
                    }
                }
                let head = slice_of(&text, 0, i);
                assert(head@ =~= text@.take(i as int));
                (string_of(&trim(&head)), string_of(&pat))
            },
            None => (self.vendor_model.clone(), self.size.clone()),
        }
    }
}

/// The mathematical value of what has been read of a listing.
pub open spec fn listing_view(done: Seq<MultipathDevice>, current: Option<MultipathDevice>) -> Listing {
    Listing {
        done: devices_view(done),
        current: match current {
            Some(d) => Some(d@),
            None => None,
        },
    }
}

/// Reads a `multipath -ll` listing, line by line, into the devices that it
/// describes, each with its paths in the order of the listing.
pub fn parse_multipath_ll(lines: &Vec<String>) -> (devices: Vec<MultipathDevice>)
    ensures
        devices_view(devices@) == flushed(listing_of(lines_view(lines@))),
{
    let mut devices: Vec<MultipathDevice> = Vec::new();
    let mut current: Option<MultipathDevice> = None;
    let mut n: usize = 0;
    proof {
        assert(lines_view(lines@).take(0) =~= Seq::<Seq<char>>::empty());
        assert(devices_view(devices@) =~= Seq::<DeviceModel>::empty());
    }
    let mpath: Vec<char> = chars_of("mpath");
    let size: Vec<char> = chars_of("size=");
    proof {
        reveal_strlit("mpath");
        reveal_strlit("size=");
        assert(mpath@ =~= mpath_prefix());
        assert(size@ =~= size_prefix());
    }
    while n < lines.len()
        invariant
            n <= lines.len(),
            mpath@ == mpath_prefix(),
            size@ == size_prefix(),
            listing_view(devices@, current) == listing_of(lines_view(lines@).take(n as int)),
        decreases lines.len() - n,
    {
        let ghost before = listing_of(lines_view(lines@).take(n as int));
        let ghost text = lines@[n as int]@;
        proof {
            let all = lines_view(lines@);
            assert(all.take(n + 1).drop_last() =~= all.take(n as int));
            assert(all.take(n + 1).last() == text);
        }
        let line = chars_of(lines[n].as_str());
        let parts = split_tokens(&line);
        if parts.len() == 0 {
        } else if starts_with(&line, &mpath) {
            let ghost done = devices_view(devices@);
            match current {
                Some(d) => {
                    devices.push(d);
                    assert(devices_view(devices@) =~= done.push(d@));
                },
                None => {},
            }
            let h = header(&parts);
            proof {
                let f = views(parts@);
                assert(f.len() > 0 ==> f[0] == parts@[0]@);
                assert(f.len() > 1 ==> f[1] == parts@[1]@);
                assert(f.len() > 2 ==> f[2] == parts@[2]@);
                assert(h@ == header_of(text));
            }
            current = Some(h);
        } else if starts_with(&parts[0], &size) {
            assert(views(parts@)[0] == parts@[0]@);
            match current {
                Some(d) => {
                    let mut d = d;
                    d.size = string_of(&trim(&line));
                    current = Some(d);
                },
                None => {
                    current = None;
                },
            }
        } else {
            assert(views(parts@)[0] == parts@[0]@);
            let at = find_device(&parts);
            let found = path_at(&parts, at);
            match (found, current) {
                (Some(p), Some(d)) => {
                    let mut d = d;
                    let ghost old_paths = paths_view(d.paths@);
                    d.paths.push(p);
                    assert(paths_view(d.paths@) =~= old_paths.push(p@));
                    current = Some(d);
                },
                (_, c) => {
                    current = c;
                },
            }
        }
        n += 1;
    }
    assert(lines_view(lines@).take(n as int) =~= lines_view(lines@));
    let ghost done = devices_view(devices@);
    match current {
        Some(d) => {
            devices.push(d);
            assert(devices_view(devices@) =~= done.push(d@));
        },
        None => {},
    }
    devices
}

} // verus!
