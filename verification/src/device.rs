//! What the tool decides about a block device before it overwrites it: the
//! kind of medium, whether it is a partition, and which partitions it holds.

use crate::path::{file_name, file_name_of, is_normal_component, join_spec, lemma_file_name_of_join};
use crate::text::{
    all_decimal_digits, chars_of, decimal_value, is_decimal_digit, literal_digits, parse_unsigned,
    parse_unsigned_range, trim, trim_bounds, unsigned_literal,
};
use vstd::prelude::*;

verus! {

/// The kind of storage behind a block device.
#[derive(Clone, Copy, Debug, PartialEq, Eq, Structural)]
pub enum MediaType {
    SolidState,
    Rotational,
    Loopback,
    MdRaid,
    Nvme,
    Ram,
    Unknown,
}

/// What is known of a block device: its kernel name and its kind of medium.
#[derive(Clone, Debug)]
pub struct DeviceMetadata {
    pub name: String,
    pub media_type: MediaType,
}

/// Whether `p` is a prefix of `s`, as `str::starts_with` tests it.
pub open spec fn starts_with(s: Seq<char>, p: Seq<char>) -> bool {
    p.len() <= s.len() && s.take(p.len() as int) == p
}

fn has_prefix(v: &Vec<char>, p: &str) -> (b: bool)
    ensures
        b == starts_with(v@, p@),
{
    let pv = chars_of(p);
    if pv.len() > v.len() {
        return false;
    }
    let mut i: usize = 0;
    while i < pv.len()
        invariant
            pv@ == p@,
            pv@.len() <= v@.len(),
            i <= pv@.len(),
            v@.take(i as int) == pv@.take(i as int),
        decreases pv.len() - i,
    {
        if v[i] != pv[i] {
            assert(v@.take(pv@.len() as int)[i as int] != pv@[i as int]);
            return false;
        }
        assert(v@.take(i + 1) =~= v@.take(i as int).push(v@[i as int]));
        assert(pv@.take(i + 1) =~= pv@.take(i as int).push(pv@[i as int]));
        i = i + 1;
    }
    assert(pv@.take(pv@.len() as int) =~= pv@);
    true
}

/// The kind of medium that a device's name alone gives away: loop devices,
/// RAM disks, md RAID arrays and NVMe drives.
pub open spec fn media_type_by_name(name: Seq<char>) -> Option<MediaType> {
    if starts_with(name, "loop"@) {
        Some(MediaType::Loopback)
    } else if starts_with(name, "ram"@) {
        Some(MediaType::Ram)
    } else if starts_with(name, "md"@) {
        Some(MediaType::MdRaid)
    } else if starts_with(name, "nvme"@) {
        Some(MediaType::Nvme)
    } else {
        None
    }
}

/// The kind of medium that sysfs reports in `queue/rotational`: `contents` is
/// the file's text, or nothing where the file does not exist.
pub open spec fn media_type_by_rotational(contents: Option<Seq<char>>) -> MediaType {
    match contents {
        None => MediaType::Unknown,
        Some(c) => if trim(c) == seq!['0'] {
            MediaType::SolidState
        } else if trim(c) == seq!['1'] {
            MediaType::Rotational
        } else {
            MediaType::Unknown
        },
    }
}

/// Names that begin `loop`, `ram`, `md` or `nvme` are loop devices, RAM
/// disks, md RAID arrays and NVMe drives, whatever follows (as in `nvme1n1`
/// or `loop12`); no other name gives its medium away.
pub proof fn lemma_media_type_by_name_prefixes(name: Seq<char>)
    ensures
        starts_with(name, seq!['l', 'o', 'o', 'p']) ==> media_type_by_name(name) == Some(
            MediaType::Loopback,
        ),
        starts_with(name, seq!['r', 'a', 'm']) ==> media_type_by_name(name) == Some(MediaType::Ram),
        starts_with(name, seq!['m', 'd']) ==> media_type_by_name(name) == Some(MediaType::MdRaid),
        starts_with(name, seq!['n', 'v', 'm', 'e']) ==> media_type_by_name(name) == Some(
            MediaType::Nvme,
        ),
        !starts_with(name, seq!['l', 'o', 'o', 'p']) && !starts_with(name, seq!['r', 'a', 'm'])
            && !starts_with(name, seq!['m', 'd']) && !starts_with(name, seq!['n', 'v', 'm', 'e'])
            ==> media_type_by_name(name) is None,
{
    reveal_strlit("loop");
    reveal_strlit("ram");
    reveal_strlit("md");
    reveal_strlit("nvme");
    assert("loop"@ =~= seq!['l', 'o', 'o', 'p']);
    assert("ram"@ =~= seq!['r', 'a', 'm']);
    assert("md"@ =~= seq!['m', 'd']);
    assert("nvme"@ =~= seq!['n', 'v', 'm', 'e']);
    if name.len() > 0 {
        let c = name[0];
        assert(starts_with(name, seq!['l', 'o', 'o', 'p']) ==> c == 'l') by {
            if starts_with(name, seq!['l', 'o', 'o', 'p']) {
                assert(name.take(4)[0] == seq!['l', 'o', 'o', 'p'][0]);
            }
        }
        assert(starts_with(name, seq!['r', 'a', 'm']) ==> c == 'r') by {
            if starts_with(name, seq!['r', 'a', 'm']) {
                assert(name.take(3)[0] == seq!['r', 'a', 'm'][0]);
            }
        }
        assert(starts_with(name, seq!['m', 'd']) ==> c == 'm') by {
            if starts_with(name, seq!['m', 'd']) {
                assert(name.take(2)[0] == seq!['m', 'd'][0]);
            }
        }
        assert(starts_with(name, seq!['n', 'v', 'm', 'e']) ==> c == 'n') by {
            if starts_with(name, seq!['n', 'v', 'm', 'e']) {
                assert(name.take(4)[0] == seq!['n', 'v', 'm', 'e'][0]);
            }
        }
    }
}

/// The kind of medium that the device's name gives away, if any. Where this
/// is nothing, the kind comes from sysfs (`media_type_from_rotational`).
pub fn media_type_from_name(device_name: &str) -> (r: Option<MediaType>)
    ensures
        r == media_type_by_name(device_name@),
        starts_with(device_name@, seq!['n', 'v', 'm', 'e']) ==> r == Some(MediaType::Nvme),
        starts_with(device_name@, seq!['l', 'o', 'o', 'p']) ==> r == Some(MediaType::Loopback),
        starts_with(device_name@, seq!['r', 'a', 'm']) ==> r == Some(MediaType::Ram),
        starts_with(device_name@, seq!['m', 'd']) ==> r == Some(MediaType::MdRaid),
{
    proof {
        lemma_media_type_by_name_prefixes(device_name@);
    }
    let v = chars_of(device_name);
    if has_prefix(&v, "loop") {
        Some(MediaType::Loopback)
    } else if has_prefix(&v, "ram") {
        Some(MediaType::Ram)
    } else if has_prefix(&v, "md") {
        Some(MediaType::MdRaid)
    } else if has_prefix(&v, "nvme") {
        Some(MediaType::Nvme)
    } else {
        None
    }
}

/// The kind of medium given by the text of the device's `queue/rotational`
/// file (nothing where it does not exist): `0` is solid state, `1` is
/// rotational, anything else is unknown. Whitespace around the value is
/// ignored.
pub fn media_type_from_rotational(contents: Option<&str>) -> (r: MediaType)
    ensures
        r == media_type_by_rotational(
            match contents {
                Some(c) => Some(c@),
                None => None,
            },
        ),
{
    match contents {
        None => MediaType::Unknown,
        Some(c) => {
            let v = chars_of(c);
            let (a, b) = trim_bounds(&v);
            let ghost t = v@.subrange(a as int, b as int);
            if b - a == 1 && v[a] == '0' {
                assert(t =~= seq!['0']);
                MediaType::SolidState
            } else if b - a == 1 && v[a] == '1' {
                assert(t =~= seq!['1']);
                assert(t != seq!['0']) by {
                    assert(t[0] != seq!['0'][0]);
                }
                MediaType::Rotational
            } else {
                assert(t != seq!['0']) by {
                    if t == seq!['0'] {
                        assert(t.len() == 1);
                        assert(t[0] == seq!['0'][0]);
                    }
                }
                assert(t != seq!['1']) by {
                    if t == seq!['1'] {
                        assert(t.len() == 1);
                        assert(t[0] == seq!['1'][0]);
                    }
                }
                MediaType::Unknown
            }
        },
    }
}

/// The partition number that sysfs reports in a device's `partition` file:
/// the text without surrounding whitespace, read as a `u64`. Nothing where
/// the text is no such number.
pub fn parse_partition_number(contents: &str) -> (r: Option<u64>)
    ensures
        r == (match parse_unsigned(trim(contents@), u64::MAX as nat) {
            Some(x) => Some(x as u64),
            None => None::<u64>,
        }),
{
    let v = chars_of(contents);
    let (a, b) = trim_bounds(&v);
    parse_unsigned_range(&v, a, b, u64::MAX)
}

/// Whether the path `path` names a partition of the disk `device_name`: its
/// file name is the disk's name followed by a partition number that fits a
/// `usize`, with a `p` between them where the disk's name ends in a digit
/// (as in `nvme0n1p1`).
pub open spec fn is_child_partition(device_name: Seq<char>, path: Seq<char>) -> bool {
    match file_name_of(path) {
        None => false,
        Some(name) => starts_with(name, device_name) && {
            let suffix = name.skip(device_name.len() as int);
            if device_name.len() > 0 && is_decimal_digit(device_name.last()) {
                &&& suffix.len() > 0
                &&& suffix[0] == 'p'
                &&& parse_unsigned(suffix.drop_first(), usize::MAX as nat) is Some
            } else {
                parse_unsigned(suffix, usize::MAX as nat) is Some
            }
        },
    }
}

/// The paths of `paths` that name partitions of `device_name`, in their order.
pub open spec fn child_partitions_of(device_name: Seq<char>, paths: Seq<String>) -> Seq<String> {
    paths.filter(|p: String| is_child_partition(device_name, p@))
}

fn is_child_partition_path(device: &Vec<char>, path: &str) -> (b: bool)
    ensures
        b == is_child_partition(device@, path@),
{
    match file_name(path) {
        None => false,
        Some(name) => {
            let v = chars_of(name.as_str());
            let n = device.len();
            if n > v.len() {
                return false;
            }
            let mut i: usize = 0;
            while i < n
                invariant
                    v@ == name@,
                    file_name_of(path@) == Some(name@),
                    n == device@.len(),
                    n <= v@.len(),
                    i <= n,
                    v@.take(i as int) == device@.take(i as int),
                decreases n - i,
            {
                if v[i] != device[i] {
                    assert(v@.take(n as int)[i as int] != device@[i as int]);
                    return false;
                }
                assert(v@.take(i + 1) =~= v@.take(i as int).push(v@[i as int]));
                assert(device@.take(i + 1) =~= device@.take(i as int).push(device@[i as int]));
                i = i + 1;
            }
            assert(device@.take(n as int) =~= device@);
            let ghost suffix = v@.skip(n as int);
            assert(suffix =~= v@.subrange(n as int, v@.len() as int));
            if n > 0 && '0' <= device[n - 1] && device[n - 1] <= '9' {
                if n < v.len() && v[n] == 'p' {
                    assert(suffix.drop_first() =~= v@.subrange(n + 1, v@.len() as int));
                    parse_unsigned_range(&v, n + 1, v.len(), usize::MAX as u64).is_some()
                } else {
                    false
                }
            } else {
                parse_unsigned_range(&v, n, v.len(), usize::MAX as u64).is_some()
            }
        },
    }
}

/// The paths among `block_partitions` that name partitions of the disk
/// `device_name`, in the order given.
pub fn child_partitions(device_name: &str, block_partitions: &Vec<String>) -> (r: Vec<String>)
    ensures
        r@ == child_partitions_of(device_name@, block_partitions@),
{
    let device = chars_of(device_name);
    let ghost pred = |p: String| is_child_partition(device_name@, p@);
    let mut r: Vec<String> = Vec::new();
    let mut i: usize = 0;
    assert(block_partitions@.take(0) =~= Seq::<String>::empty());
    proof {
        reveal(Seq::filter);
    }
    while i < block_partitions.len()
        invariant
            device@ == device_name@,
            pred == (|p: String| is_child_partition(device_name@, p@)),
            i <= block_partitions@.len(),
            r@ == block_partitions@.take(i as int).filter(pred),
        decreases block_partitions.len() - i,
    {
        let path = &block_partitions[i];
        proof {
            block_partitions@.take(i as int).lemma_filter_push(*path, pred);
            assert(block_partitions@.take(i + 1) =~= block_partitions@.take(i as int).push(*path));
        }
        if is_child_partition_path(&device, path.as_str()) {
            r.push(path.clone());
        }
        i = i + 1;
    }
    assert(block_partitions@.take(block_partitions@.len() as int) =~= block_partitions@);
    r
}

/// A disk is never taken for a partition of itself: its own path, in any
/// directory, has nothing after the disk's name.
pub proof fn lemma_disk_is_not_its_own_partition(dir: Seq<char>, device_name: Seq<char>)
    requires
        is_normal_component(device_name),
    ensures
        !is_child_partition(device_name, join_spec(dir, device_name)),
{
    lemma_file_name_of_join(dir, device_name);
    let suffix = device_name.skip(device_name.len() as int);
    assert(suffix.len() == 0);
    assert(literal_digits(suffix) =~= suffix);
}

/// The name of the `n`th partition of a disk: the disk's name, a `p` where
/// that name ends in a digit, then the decimal numeral `digits`.
pub open spec fn partition_name(device_name: Seq<char>, digits: Seq<char>) -> Seq<char> {
    if device_name.len() > 0 && is_decimal_digit(device_name.last()) {
        device_name + seq!['p'] + digits
    } else {
        device_name + digits
    }
}

/// Every numbered partition of a disk is found among the disk's partitions,
/// whatever directory its path lies in, as long as its number fits a `usize`.
pub proof fn lemma_numbered_partition_is_child(
    dir: Seq<char>,
    device_name: Seq<char>,
    digits: Seq<char>,
)
    requires
        is_normal_component(device_name),
        digits.len() > 0,
        all_decimal_digits(digits),
        decimal_value(digits) <= usize::MAX,
    ensures
        is_child_partition(device_name, join_spec(dir, partition_name(device_name, digits))),
{
    let ends_in_digit = device_name.len() > 0 && is_decimal_digit(device_name.last());
    let sep = if ends_in_digit {
        seq!['p']
    } else {
        Seq::<char>::empty()
    };
    let name = partition_name(device_name, digits);
    assert(name =~= device_name + sep + digits);
    assert forall|i: int| 0 <= i < name.len() implies #[trigger] name[i] != '/' by {
        if i < device_name.len() {
            assert(name[i] == device_name[i]);
        } else if i < device_name.len() + sep.len() {
            assert(name[i] == 'p');
        } else {
            assert(name[i] == digits[i - device_name.len() - sep.len()]);
            assert(is_decimal_digit(digits[i - device_name.len() - sep.len()]));
        }
    }
    assert(name.len() >= 2);
    assert(name != seq!['.']) by {
        if name == seq!['.'] {
            assert(name.len() == 1);
        }
    }
    assert(name != seq!['.', '.']) by {
        if name == seq!['.', '.'] {
            let last = name.len() - 1;
            assert(name[last] == digits[digits.len() - 1]);
            assert(is_decimal_digit(digits[digits.len() - 1]));
            assert(name[last] == seq!['.', '.'][1]);
        }
    }
    lemma_file_name_of_join(dir, name);
    assert(name.take(device_name.len() as int) =~= device_name);
    let suffix = name.skip(device_name.len() as int);
    assert(suffix =~= sep + digits);
    assert(digits[0] != '+') by {
        assert(is_decimal_digit(digits[0]));
    }
    assert(literal_digits(digits) =~= digits);
    if ends_in_digit {
        assert(suffix.drop_first() =~= digits);
    }
}

/// How many bytes a read-back covers when the write stage is skipped: the
/// device's capacity rounded down to whole buffers of `buffer_size` bytes.
pub fn written_for_capacity(capacity: u64, buffer_size: usize) -> (r: u64)
    requires
        buffer_size > 0,
    ensures
        r == capacity / (buffer_size as u64) * (buffer_size as u64),
        r <= capacity,
        r % (buffer_size as u64) == 0,
{
    let b = buffer_size as u64;
    let q = capacity / b;
    proof {
        assert(q * b <= capacity && (q * b) % (b as int) == 0) by (nonlinear_arith)
            requires
                q == capacity / b,
                b > 0,
        {
            vstd::arithmetic::div_mod::lemma_fundamental_div_mod(capacity as int, b as int);
            vstd::arithmetic::div_mod::lemma_mod_multiples_basic(q as int, b as int);
        }
    }
    q * b
}

/// Whether `name` is the disk's name, a `p` exactly where that name ends in a
/// digit, the sign `sign` (nothing or `+`), and the non-empty decimal numeral
/// `digits`, whose value fits a `usize`.
pub open spec fn is_numbered_partition_name(
    device_name: Seq<char>,
    name: Seq<char>,
    sign: Seq<char>,
    digits: Seq<char>,
) -> bool {
    &&& (sign == Seq::<char>::empty() || sign == seq!['+'])
    &&& digits.len() > 0
    &&& forall|i: int| 0 <= i < digits.len() ==> '0' <= #[trigger] digits[i] <= '9'
    &&& decimal_value(digits) <= usize::MAX
    &&& name == if device_name.len() > 0 && '0' <= device_name.last() <= '9' {
        device_name + seq!['p'] + sign + digits
    } else {
        device_name + sign + digits
    }
}

proof fn lemma_literal_split(rest: Seq<char>)
    requires
        unsigned_literal(rest) is Some,
    ensures
        ({
            let sign = if rest.len() > 0 && rest[0] == '+' {
                seq!['+']
            } else {
                Seq::<char>::empty()
            };
            &&& rest == sign + literal_digits(rest)
            &&& (sign == Seq::<char>::empty() || sign == seq!['+'])
            &&& literal_digits(rest).len() > 0
            &&& forall|i: int|
                0 <= i < literal_digits(rest).len() ==> '0' <= #[trigger] literal_digits(rest)[i]
                    <= '9'
            &&& decimal_value(literal_digits(rest)) == unsigned_literal(rest)->0
        }),
{
    let sign = if rest.len() > 0 && rest[0] == '+' {
        seq!['+']
    } else {
        Seq::<char>::empty()
    };
    assert(rest =~= sign + literal_digits(rest));
    assert(all_decimal_digits(literal_digits(rest)));
}

proof fn lemma_suffix_is_numbered(device_name: Seq<char>, name: Seq<char>)
    requires
        starts_with(name, device_name),
        ({
            let suffix = name.skip(device_name.len() as int);
            if device_name.len() > 0 && is_decimal_digit(device_name.last()) {
                &&& suffix.len() > 0
                &&& suffix[0] == 'p'
                &&& parse_unsigned(suffix.drop_first(), usize::MAX as nat) is Some
            } else {
                parse_unsigned(suffix, usize::MAX as nat) is Some
            }
        }),
    ensures
        exists|sign: Seq<char>, digits: Seq<char>|
            #[trigger] is_numbered_partition_name(device_name, name, sign, digits),
{
    let n = device_name.len() as int;
    let suffix = name.skip(n);
    assert(name =~= device_name + suffix);
    let ends_in_digit = device_name.len() > 0 && '0' <= device_name.last() <= '9';
    let rest = if ends_in_digit {
        suffix.drop_first()
    } else {
        suffix
    };
    lemma_literal_split(rest);
    let digits = literal_digits(rest);
    let sign = if rest.len() > 0 && rest[0] == '+' {
        seq!['+']
    } else {
        Seq::<char>::empty()
    };
    if ends_in_digit {
        assert(suffix =~= seq!['p'] + rest);
        assert(name =~= device_name + seq!['p'] + sign + digits);
    } else {
        assert(name =~= device_name + sign + digits);
    }
    assert(is_numbered_partition_name(device_name, name, sign, digits));
}

/// Only numbered partitions are partitions: whatever a path names that is
/// taken for a partition of a disk has as its file name the disk's name, a
/// `p` exactly where that name ends in a digit, an optional `+`, and a
/// non-empty decimal numeral whose value fits a `usize`, and nothing else.
pub proof fn lemma_child_partition_is_numbered(device_name: Seq<char>, path: Seq<char>)
    requires
        is_child_partition(device_name, path),
    ensures
        file_name_of(path) is Some,
        exists|sign: Seq<char>, digits: Seq<char>|
            #[trigger] is_numbered_partition_name(device_name, file_name_of(path)->0, sign, digits),
{
    lemma_suffix_is_numbered(device_name, file_name_of(path)->0);
}

/// A letter right after the disk's name never makes a partition of that
/// disk, except the `p` that separates the number where the disk's name ends
/// in a digit: `sdaa1` is no partition of `sda`.
pub proof fn lemma_letter_after_disk_name_is_no_partition(
    device_name: Seq<char>,
    path: Seq<char>,
    name: Seq<char>,
)
    requires
        file_name_of(path) == Some(name),
        starts_with(name, device_name),
        name.len() > device_name.len(),
        'a' <= name[device_name.len() as int] <= 'z',
        !(device_name.len() > 0 && '0' <= device_name.last() <= '9' && name[device_name.len() as int]
            == 'p'),
    ensures
        !is_child_partition(device_name, path),
{
    let n = device_name.len() as int;
    let suffix = name.skip(n);
    assert(suffix[0] == name[n]);
    if device_name.len() > 0 && '0' <= device_name.last() <= '9' {
    } else {
        assert(literal_digits(suffix) == suffix);
        assert(!is_decimal_digit(suffix[0]));
    }
}

/// The switches that let a test run on a device that the checks would
/// otherwise refuse.
#[derive(Clone, Copy, Debug)]
pub struct SanityOptions {
    /// Test the device even if its medium is not a spinning disk.
    pub allow_any_media: bool,
    /// Test the device even if it is a partition rather than a whole disk.
    pub allow_any_block_device: bool,
    /// Test the device even if any check at all fails: every check passes.
    pub skip_sanity_checks: bool,
}

/// A reason to be careful that a switch let pass.
#[derive(Clone, Copy, Debug, PartialEq, Eq, Structural)]
pub enum SanityWarning {
    /// The device is a partition, not a whole disk.
    TestingPartition,
    /// The device's medium is not a spinning disk.
    UnexpectedMedia(MediaType),
}

/// Why a device is refused.
#[derive(Clone, Debug)]
pub enum SanityError {
    /// The device is a partition, and partitions were not allowed.
    PartitionNotAllowed,
    /// The device's medium is not a spinning disk, and other media were not
    /// allowed.
    MediaNotAllowed,
    /// The disk holds these partitions, which a test would destroy.
    ChildPartitions(Vec<String>),
}

/// Why the device's kind refuses it, if it does: a partition without
/// `allow_any_block_device` first, then a medium other than a spinning disk
/// without `allow_any_media`. With `skip_sanity_checks` nothing refuses it.
pub open spec fn device_kind_error(
    options: SanityOptions,
    partition: Option<u64>,
    media_type: MediaType,
) -> Option<SanityError> {
    if options.skip_sanity_checks {
        None
    } else if partition is Some && !options.allow_any_block_device {
        Some(SanityError::PartitionNotAllowed)
    } else if media_type != MediaType::Rotational && !options.allow_any_media {
        Some(SanityError::MediaNotAllowed)
    } else {
        None
    }
}

/// With `skip_sanity_checks` a device's kind never refuses it, whatever it
/// is and whatever the other switches say.
pub proof fn lemma_skipping_passes_every_device(
    options: SanityOptions,
    partition: Option<u64>,
    media_type: MediaType,
)
    requires
        options.skip_sanity_checks,
    ensures
        device_kind_error(options, partition, media_type) is None,
{
}

/// A partition is refused unless `allow_any_block_device` (or
/// `skip_sanity_checks`) is given, whatever the medium and `allow_any_media`.
pub proof fn lemma_partition_needs_allow_any_block_device(
    options: SanityOptions,
    partition: Option<u64>,
    media_type: MediaType,
)
    requires
        !options.skip_sanity_checks,
        !options.allow_any_block_device,
        partition is Some,
    ensures
        device_kind_error(options, partition, media_type) == Some(SanityError::PartitionNotAllowed),
{
}

/// A medium other than a spinning disk is refused unless `allow_any_media`
/// (or `skip_sanity_checks`) is given; `allow_any_block_device` does not let
/// it through. A partition that is refused as a partition is refused first.
pub proof fn lemma_other_media_need_allow_any_media(
    options: SanityOptions,
    partition: Option<u64>,
    media_type: MediaType,
)
    requires
        !options.skip_sanity_checks,
        !options.allow_any_media,
        media_type != MediaType::Rotational,
        partition is None || options.allow_any_block_device,
    ensures
        device_kind_error(options, partition, media_type) == Some(SanityError::MediaNotAllowed),
{
}

/// A device's kind lets it pass exactly when the checks are skipped, or when
/// it is a whole disk or partitions are allowed, and it is a spinning disk or
/// other media are allowed.
pub proof fn lemma_device_kind_passes(
    options: SanityOptions,
    partition: Option<u64>,
    media_type: MediaType,
)
    ensures
        device_kind_error(options, partition, media_type) is None <==> (options.skip_sanity_checks
            || ((partition is None || options.allow_any_block_device) && (media_type
            == MediaType::Rotational || options.allow_any_media))),
{
}

/// The warnings for a device whose kind was let pass, in order.
pub open spec fn device_kind_warnings(partition: Option<u64>, media_type: MediaType) -> Seq<
    SanityWarning,
> {
    (if partition is Some {
        seq![SanityWarning::TestingPartition]
    } else {
        Seq::empty()
    }) + (if media_type != MediaType::Rotational {
        seq![SanityWarning::UnexpectedMedia(media_type)]
    } else {
        Seq::empty()
    })
}

/// The first of the checks made before a device is overwritten: it must be a
/// whole disk, unless `allow_any_block_device`, and a spinning disk, unless
/// `allow_any_media`; `skip_sanity_checks` lets anything pass. Returns the
/// warnings for what a switch let pass.
pub fn check_device_kind(
    options: &SanityOptions,
    partition: Option<u64>,
    device: &DeviceMetadata,
) -> (r: Result<Vec<SanityWarning>, SanityError>)
    ensures
        match device_kind_error(*options, partition, device.media_type) {
            Some(e) => r == Err::<Vec<SanityWarning>, SanityError>(e),
            None => r matches Ok(w) && w@ == device_kind_warnings(partition, device.media_type),
        },
        !options.skip_sanity_checks && !options.allow_any_block_device && partition is Some
            ==> r matches Err(SanityError::PartitionNotAllowed),
        !options.skip_sanity_checks && !options.allow_any_media && device.media_type
            != MediaType::Rotational && (partition is None || options.allow_any_block_device)
            ==> r matches Err(SanityError::MediaNotAllowed),
        r is Ok <==> (options.skip_sanity_checks || ((partition is None
            || options.allow_any_block_device) && (device.media_type == MediaType::Rotational
            || options.allow_any_media))),
{
    let mut warnings: Vec<SanityWarning> = Vec::new();
    if partition.is_some() {
        if !options.allow_any_block_device && !options.skip_sanity_checks {
            return Err(SanityError::PartitionNotAllowed);
        }
        warnings.push(SanityWarning::TestingPartition);
    }
    if device.media_type != MediaType::Rotational {
        if !options.allow_any_media && !options.skip_sanity_checks {
            return Err(SanityError::MediaNotAllowed);
        }
        warnings.push(SanityWarning::UnexpectedMedia(device.media_type));
    }
    assert(warnings@ =~= device_kind_warnings(partition, device.media_type));
    Ok(warnings)
}

/// The last of the checks made before a device is overwritten: a whole disk
/// (`partition` is nothing) must hold no partitions among
/// `block_partitions`, the paths of all partitions on the system. A partition
/// passes without a look at the list, and so does any device under
/// `skip_sanity_checks`.
pub fn check_child_partitions(
    options: &SanityOptions,
    device: &DeviceMetadata,
    partition: Option<u64>,
    block_partitions: &Vec<String>,
) -> (r: Result<(), SanityError>)
    ensures
        options.skip_sanity_checks || partition is Some ==> r == Ok::<(), SanityError>(()),
        !options.skip_sanity_checks && partition is None ==> {
            let found = child_partitions_of(device.name@, block_partitions@);
            if found.len() == 0 {
                r == Ok::<(), SanityError>(())
            } else {
                r matches Err(SanityError::ChildPartitions(v)) && v@ == found
            }
        },
{
    if options.skip_sanity_checks || partition.is_some() {
        return Ok(());
    }
    let found = child_partitions(device.name.as_str(), block_partitions);
    if found.len() == 0 {
        Ok(())
    } else {
        Err(SanityError::ChildPartitions(found))
    }
}

} // verus!
