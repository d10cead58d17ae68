//! How output devices are named to the user and configured for playback.
use crate::sorting::{sort_by_name, sort_strings, string_key};
use crate::text::{nonblank, nonblank_string, push_str, str_eq, string_of, trimmed, views};
use vstd::prelude::*;

verus! {

/// What an audio host says about a device.
#[derive(Debug)]
pub struct DeviceDescription {
    pub name: String,
    pub driver: Option<String>,
    pub extended_first: Option<String>,
}

/// The label of a device: the first extended description line when not
/// blank (trimmed), else the name with the driver in brackets when the
/// driver is known and differs from the name, else the name; without a
/// description, the device's own name or `Unknown output device`.
pub open spec fn base_label_of(
    description: Option<(Seq<char>, Option<Seq<char>>, Option<Seq<char>>)>,
    legacy_name: Option<Seq<char>>,
) -> Seq<char> {
    match description {
        Some((name, driver, extended)) => {
            let from_extended = match extended {
                Some(e) => nonblank(e),
                None => None,
            };
            match from_extended {
                Some(e) => e,
                None => match driver {
                    Some(d) => if d.len() > 0 && d != name {
                        name + " ("@ + d + ")"@
                    } else {
                        name
                    },
                    None => name,
                },
            }
        },
        None => match legacy_name {
            Some(n) => n,
            None => "Unknown output device"@,
        },
    }
}

/// The view of a description.
pub open spec fn description_view(d: Option<DeviceDescription>) -> Option<(Seq<char>, Option<Seq<char>>, Option<Seq<char>>)> {
    match d {
        Some(x) => Some(
            (
                x.name@,
                match x.driver {
                    Some(v) => Some(v@),
                    None => None,
                },
                match x.extended_first {
                    Some(v) => Some(v@),
                    None => None,
                },
            ),
        ),
        None => None,
    }
}

/// The view of an optional string.
pub open spec fn opt_view(s: Option<String>) -> Option<Seq<char>> {
    match s {
        Some(x) => Some(x@),
        None => None,
    }
}

/// The label of a device from its description, or from its own name when
/// it has none.
pub fn base_device_label(description: &Option<DeviceDescription>, legacy_name: &Option<String>) -> (label: String)
    ensures
        label@ == base_label_of(description_view(*description), opt_view(*legacy_name)),
{
    match description {
        Some(d) => {
            if let Some(e) = &d.extended_first {
                if let Some(t) = nonblank_string(e.as_str()) {
                    return t;
                }
            }
            if let Some(driver) = &d.driver {
                if !driver.as_str().is_empty() && !str_eq(driver.as_str(), d.name.as_str()) {
                    let mut label = string_of(d.name.as_str());
                    push_str(&mut label, " (");
                    push_str(&mut label, driver.as_str());
                    push_str(&mut label, ")");
                    return label;
                }
            }
            string_of(d.name.as_str())
        },
        None => match legacy_name {
            Some(n) => string_of(n.as_str()),
            None => string_of("Unknown output device"),
        },
    }
}

/// The suffix that tells devices with the same label apart: the last six
/// characters of the device id in square brackets, or nothing without an id.
pub open spec fn suffix_of(id: Option<Seq<char>>) -> Seq<char> {
    match id {
        Some(raw) => " ["@ + (if raw.len() > 6 {
            raw.skip(raw.len() - 6)
        } else {
            raw
        }) + "]"@,
        None => Seq::empty(),
    }
}

/// The suffix that tells devices with the same label apart.
pub fn short_device_suffix(id: &Option<String>) -> (suffix: String)
    ensures
        suffix@ == suffix_of(opt_view(*id)),
{
    match id {
        Some(raw) => {
            let chars = crate::text::chars_of(raw.as_str());
            let from: usize = if chars.len() > 6 {
                chars.len() - 6
            } else {
                0
            };
            let tail = crate::text::string_from_chars(chars.as_slice(), from, chars.len());
            let mut suffix = string_of(" [");
            push_str(&mut suffix, tail.as_str());
            push_str(&mut suffix, "]");
            proof {
                if chars@.len() > 6 {
                    assert(chars@.subrange(from as int, chars@.len() as int) =~= raw@.skip(raw@.len() - 6));
                } else {
                    assert(chars@.subrange(0, chars@.len() as int) =~= raw@);
                }
            }
            suffix
        },
        None => String::new(),
    }
}

/// How many devices have the base label `base`.
pub open spec fn label_count(bases: Seq<Seq<char>>, base: Seq<char>) -> nat
    decreases bases.len(),
{
    if bases.len() == 0 {
        0
    } else {
        label_count(bases.drop_last(), base) + if bases.last() == base {
            1nat
        } else {
            0nat
        }
    }
}

/// The labels of devices: the base label, with the device's suffix when
/// another device has the same base label.
pub open spec fn labels_of(bases: Seq<Seq<char>>, suffixes: Seq<Seq<char>>) -> Seq<Seq<char>> {
    Seq::new(
        bases.len(),
        |i: int|
            if label_count(bases, bases[i]) > 1 {
                bases[i] + suffixes[i]
            } else {
                bases[i]
            },
    )
}

/// How many of `bases` equal `base`.
fn count_label(bases: &Vec<String>, base: &str) -> (count: usize)
    ensures
        count == label_count(views(bases@), base@),
{
    let mut count: usize = 0;
    let mut i: usize = 0;
    while i < bases.len()
        invariant
            i <= bases@.len(),
            count == label_count(views(bases@).take(i as int), base@),
            count <= i,
        decreases bases@.len() - i,
    {
        assert(views(bases@).take(i + 1).drop_last() =~= views(bases@).take(i as int));
        assert(views(bases@).take(i + 1).last() == bases@[i as int]@);
        if str_eq(bases[i].as_str(), base) {
            count += 1;
        }
        i += 1;
    }
    assert(views(bases@).take(bases@.len() as int) =~= views(bases@));
    count
}

/// The labels of the devices with base labels `bases` and suffixes
/// `suffixes`, in the same order.
pub fn device_labels(bases: &Vec<String>, suffixes: &Vec<String>) -> (labels: Vec<String>)
    requires
        bases@.len() == suffixes@.len(),
    ensures
        views(labels@) == labels_of(views(bases@), views(suffixes@)),
{
    let mut labels: Vec<String> = Vec::new();
    let mut i: usize = 0;
    while i < bases.len()
        invariant
            i <= bases@.len(),
            bases@.len() == suffixes@.len(),
            labels@.len() == i,
            forall|q: int|
                0 <= q < i ==> (#[trigger] labels@[q])@ == labels_of(views(bases@), views(suffixes@))[q],
        decreases bases@.len() - i,
    {
        let count = count_label(bases, bases[i].as_str());
        let mut label = string_of(bases[i].as_str());
        if count > 1 {
            push_str(&mut label, suffixes[i].as_str());
        }
        labels.push(label);
        i += 1;
    }
    assert(views(labels@) =~= labels_of(views(bases@), views(suffixes@)));
    labels
}

/// The output devices offered, by label in code-point order.
pub fn output_device_names(labels: Vec<String>) -> (names: Vec<String>)
    ensures
        names@ == sort_by_name(labels@, string_key()),
{
    sort_strings(labels)
}

/// The label of the default device: the label of the first device with
/// the same id (both possibly unknown), else its own base label.
pub open spec fn default_label_of(
    ids: Seq<Option<Seq<char>>>,
    labels: Seq<Seq<char>>,
    default_id: Option<Seq<char>>,
    fallback: Seq<char>,
) -> Seq<char> {
    if exists|i: int| 0 <= i < ids.len() && ids[i] == default_id {
        labels[choose|i: int|
            0 <= i < ids.len() && ids[i] == default_id && forall|j: int| 0 <= j < i ==> ids[j] != default_id]
    } else {
        fallback
    }
}

/// The label of the default device among the host's devices with ids `ids`
/// and labels `labels`.
pub fn default_output_device_label(
    ids: &Vec<Option<String>>,
    labels: &Vec<String>,
    default_id: &Option<String>,
    fallback: String,
) -> (label: String)
    requires
        ids@.len() == labels@.len(),
    ensures
        label@ == default_label_of(
            ids@.map_values(|x: Option<String>| opt_view(x)),
            views(labels@),
            opt_view(*default_id),
            fallback@,
        ),
{
    let ghost iv = ids@.map_values(|x: Option<String>| opt_view(x));
    let ghost target = opt_view(*default_id);
    let mut i: usize = 0;
    while i < ids.len()
        invariant
            i <= ids@.len(),
            ids@.len() == labels@.len(),
            iv == ids@.map_values(|x: Option<String>| opt_view(x)),
            target == opt_view(*default_id),
            forall|q: int| 0 <= q < i ==> iv[q] != target,
        decreases ids@.len() - i,
    {
        assert(iv[i as int] == opt_view(ids@[i as int]));
        let same = match (&ids[i], default_id) {
            (Some(a), Some(b)) => str_eq(a.as_str(), b.as_str()),
            (None, None) => true,
            _ => false,
        };
        if same {
            proof {
                let c = choose|c: int|
                    0 <= c < iv.len() && iv[c] == target && forall|j: int| 0 <= j < c ==> iv[j] != target;
                assert(0 <= i < iv.len() && iv[i as int] == target && forall|j: int|
                    0 <= j < i ==> iv[j] != target);
                if c > i {
                    assert(iv[i as int] != target);
                }
                assert(views(labels@)[i as int] == labels@[i as int]@);
            }
            return string_of(labels[i].as_str());
        }
        i += 1;
    }
    fallback
}

/// The playback buffer size on Linux: 4096 frames kept within what the
/// device supports, or the device's default when it does not say.
pub fn choose_linux_buffer_size(supported: Option<(u32, u32)>) -> (frames: Option<u32>)
    requires
        match supported {
            Some((min, max)) => min <= max,
            None => true,
        },
    ensures
        match supported {
            Some((min, max)) => frames == Some(if 4096 < min {
                min
            } else if 4096 > max {
                max
            } else {
                4096u32
            }),
            None => frames is None,
        },
{
    match supported {
        Some((min, max)) => Some(
            if 4096 < min {
                min
            } else if 4096 > max {
                max
            } else {
                4096
            },
        ),
        None => None,
    }
}

} // verus!
