//! dm-verity protection of the guest root filesystem: the fields of the
//! `kernel_verity_params` option (`root_hash=..,salt=..,data_blocks=..,
//! data_block_size=..,hash_block_size=..`) and the device-mapper table that
//! sets the verified root device up at boot, with the hash tree stored on
//! the same device right after the data.

use vstd::prelude::*;
use vstd::string::*;
use crate::kernel_params::{parse_separated, parse_separated_fields, KernelParams, Param, ParamView};
use crate::text::{owned, str_eq};
use crate::whisperer::opt_view;

verus! {

/// The device a verified root filesystem is mounted from.
pub const VERITY_ROOT_DEVICE: &'static str = "/dev/dm-0";

/// Kernel parameter that creates device-mapper devices at boot.
pub const DM_MOD_CREATE: &'static str = "dm-mod.create";

/// Bytes in a sector, the unit of device-mapper table lengths.
pub const SECTOR_SIZE: u64 = 512;

/// The value of the first field called `key`.
pub open spec fn field_value(fs: Seq<ParamView>, key: Seq<char>) -> Option<Seq<char>>
    decreases fs.len(),
{
    if fs.len() == 0 {
        None
    } else if fs[0].0 == key {
        Some(fs[0].1)
    } else {
        field_value(fs.drop_first(), key)
    }
}

fn find_field(fs: &Vec<Param>, key: &str) -> (r: Option<String>)
    ensures
        opt_view(r) == field_value(KernelParams::params_view(fs@), key@),
{
    let ghost s = KernelParams::params_view(fs@);
    let mut i: usize = 0;
    assert(s.skip(0) =~= s);
    while i < fs.len()
        invariant
            s == KernelParams::params_view(fs@),
            i <= fs@.len(),
            field_value(s, key@) == field_value(s.skip(i as int), key@),
        decreases fs@.len() - i,
    {
        assert(s.skip(i as int)[0] == fs@[i as int]@);
        assert(s.skip(i as int).drop_first() =~= s.skip(i + 1));
        if str_eq(fs[i].key.as_str(), key) {
            return Some(fs[i].value.clone());
        }
        i = i + 1;
    }
    None
}

/// A decimal digit.
pub open spec fn is_digit(c: char) -> bool {
    48 <= (c as int) <= 57
}

/// The number the decimal digits `s` spell.
pub open spec fn digits_value(s: Seq<char>) -> int
    decreases s.len(),
{
    if s.len() == 0 {
        0
    } else {
        digits_value(s.drop_last()) * 10 + (s.last() as int - 48)
    }
}

/// The number a non-empty string of decimal digits spells.
pub open spec fn decimal_of(s: Seq<char>) -> Option<int> {
    if s.len() > 0 && forall|i: int| 0 <= i < s.len() ==> is_digit(#[trigger] s[i]) {
        Some(digits_value(s))
    } else {
        None
    }
}

/// Reading more digits never gives a smaller number.
proof fn lemma_digits_value_grows(s: Seq<char>, i: int)
    requires
        forall|k: int| 0 <= k < s.len() ==> is_digit(#[trigger] s[k]),
        0 <= i <= s.len(),
    ensures
        0 <= digits_value(s.take(i)) <= digits_value(s),
    decreases s.len() - i,
{
    if i == s.len() {
        assert(s.take(i) =~= s);
        lemma_digits_value_nonnegative(s);
    } else {
        lemma_digits_value_grows(s, i + 1);
        assert(s.take(i + 1).drop_last() =~= s.take(i));
        assert(is_digit(s[i]));
        lemma_digits_value_nonnegative(s.take(i));
    }
}

proof fn lemma_digits_value_nonnegative(s: Seq<char>)
    requires
        forall|k: int| 0 <= k < s.len() ==> is_digit(#[trigger] s[k]),
    ensures
        0 <= digits_value(s),
    decreases s.len(),
{
    if s.len() > 0 {
        assert forall|k: int| 0 <= k < s.drop_last().len() implies is_digit(#[trigger] s.drop_last()[k]) by {
            assert(s.drop_last()[k] == s[k]);
        }
        lemma_digits_value_nonnegative(s.drop_last());
        assert(is_digit(s[s.len() - 1]));
    }
}

/// The number a decimal field holds, when it fits in a `u64`.
fn parse_u64(s: &str) -> (r: Option<u64>)
    ensures
        match decimal_of(s@) {
            Some(v) => if v <= u64::MAX {
                r == Some(v as u64)
            } else {
                r is None
            },
            None => r is None,
        },
{
    let n = s.unicode_len();
    if n == 0 {
        return None;
    }
    let mut acc: u64 = 0;
    let mut i: usize = 0;
    assert(s@.take(0) =~= Seq::<char>::empty());
    while i < n
        invariant
            n == s@.len(),
            n > 0,
            i <= n,
            forall|k: int| 0 <= k < i ==> is_digit(#[trigger] s@[k]),
            acc == digits_value(s@.take(i as int)),
        decreases n - i,
    {
        let c = s.get_char(i);
        let code = c as u32;
        if code < 48 || code > 57 {
            assert(!is_digit(s@[i as int]));
            return None;
        }
        assert(s@.take(i + 1).drop_last() =~= s@.take(i as int));
        assert(s@.take(i + 1).last() == c);
        let d = (code - 48) as u64;
        let next = match acc.checked_mul(10) {
            Some(m) => m.checked_add(d),
            None => None,
        };
        match next {
            Some(v) => {
                acc = v;
            },
            None => {
                proof {
                    if forall|k: int| 0 <= k < s@.len() ==> is_digit(#[trigger] s@[k]) {
                        lemma_digits_value_grows(s@, i + 1);
                    }
                }
                return None;
            },
        }
        i = i + 1;
    }
    assert(s@.take(n as int) =~= s@);
    Some(acc)
}

/// The decimal text of a number.
pub open spec fn decimal_text(n: nat) -> Seq<char>
    decreases n,
{
    if n < 10 {
        seq![(48 + n) as char]
    } else {
        decimal_text(n / 10).push((48 + n % 10) as char)
    }
}

fn digit_str(d: u64) -> (r: &'static str)
    requires
        d < 10,
    ensures
        r@ == seq![(48 + d) as char],
{
    proof {
        reveal_strlit("0");
        reveal_strlit("1");
        reveal_strlit("2");
        reveal_strlit("3");
        reveal_strlit("4");
        reveal_strlit("5");
        reveal_strlit("6");
        reveal_strlit("7");
        reveal_strlit("8");
        reveal_strlit("9");
    }
    if d == 0 {
        "0"
    } else if d == 1 {
        "1"
    } else if d == 2 {
        "2"
    } else if d == 3 {
        "3"
    } else if d == 4 {
        "4"
    } else if d == 5 {
        "5"
    } else if d == 6 {
        "6"
    } else if d == 7 {
        "7"
    } else if d == 8 {
        "8"
    } else {
        "9"
    }
}

/// A number written in decimal.
pub fn decimal_string(n: u64) -> (r: String)
    ensures
        r@ == decimal_text(n as nat),
    decreases n,
{
    if n < 10 {
        owned(digit_str(n))
    } else {
        let mut s = decimal_string(n / 10);
        s.append(digit_str(n % 10));
        s
    }
}

/// The device-mapper table of a verified root on `dev`: `data_blocks`
/// blocks of `data_block_size` bytes, checked against the SHA-256 hash tree
/// of `hash_block_size` blocks that starts right after the data.
pub open spec fn verity_table(
    dev: Seq<char>,
    root_hash: Seq<char>,
    salt: Seq<char>,
    data_blocks: int,
    data_block_size: int,
    hash_block_size: int,
) -> Seq<char> {
    "\"dm-verity,,,ro,0 "@ + decimal_text((data_blocks * data_block_size / 512) as nat) + " verity 1 "@ + dev
        + " "@ + dev + " "@ + decimal_text(data_block_size as nat) + " "@ + decimal_text(hash_block_size as nat)
        + " "@ + decimal_text(data_blocks as nat) + " "@ + decimal_text(
        (data_blocks * data_block_size / hash_block_size) as nat,
    ) + " sha256 "@ + root_hash + " "@ + salt + "\""@
}

/// A field holding a number that fits in a `u64`.
pub open spec fn number_field(fs: Seq<ParamView>, key: Seq<char>) -> Option<int> {
    match field_value(fs, key) {
        Some(v) => match decimal_of(v) {
            Some(n) => if 0 <= n <= u64::MAX {
                Some(n)
            } else {
                None
            },
            None => None,
        },
        None => None,
    }
}

/// A field holding a positive number that fits in a `u64`.
pub open spec fn size_field(fs: Seq<ParamView>, key: Seq<char>) -> Option<int> {
    match number_field(fs, key) {
        Some(n) => if n > 0 {
            Some(n)
        } else {
            None
        },
        None => None,
    }
}

/// The device-mapper table the verity option `verity` asks for on `dev`, or
/// the name of the first field that is missing or holds no usable value:
/// `root_hash`, `salt`, `data_blocks` (a number), `data_block_size` and
/// `hash_block_size` (positive numbers); a data area of more than
/// `u64::MAX` bytes is blamed on `data_blocks`.
pub open spec fn verity_setup(verity: Seq<char>, dev: Seq<char>) -> Result<Seq<char>, Seq<char>> {
    let fs = parse_separated(verity, ',');
    match field_value(fs, "root_hash"@) {
        None => Err("root_hash"@),
        Some(root_hash) => match field_value(fs, "salt"@) {
            None => Err("salt"@),
            Some(salt) => match number_field(fs, "data_blocks"@) {
                None => Err("data_blocks"@),
                Some(db) => match size_field(fs, "data_block_size"@) {
                    None => Err("data_block_size"@),
                    Some(dbs) => match size_field(fs, "hash_block_size"@) {
                        None => Err("hash_block_size"@),
                        Some(hbs) => if db * dbs > u64::MAX {
                            Err("data_blocks"@)
                        } else {
                            Ok(verity_table(dev, root_hash, salt, db, dbs, hbs))
                        },
                    },
                },
            },
        },
    }
}

fn number_of_field(fs: &Vec<Param>, key: &str) -> (r: Option<u64>)
    ensures
        match number_field(KernelParams::params_view(fs@), key@) {
            Some(n) => r == Some(n as u64),
            None => r is None,
        },
{
    match find_field(fs, key) {
        Some(v) => {
            proof {
                if decimal_of(v@) is Some {
                    lemma_digits_value_nonnegative(v@);
                }
            }
            parse_u64(v.as_str())
        },
        None => None,
    }
}

/// The device-mapper table the verity option `verity` asks for on `dev`;
/// an error names the field at fault.
pub fn verity_device_table(verity: &str, dev: &str) -> (r: Result<String, String>)
    ensures
        match verity_setup(verity@, dev@) {
            Ok(t) => (r matches Ok(s) && s@ == t),
            Err(k) => (r matches Err(e) && e@ == k),
        },
{
    let fs = parse_separated_fields(verity, ',');
    let root_hash = match find_field(&fs, "root_hash") {
        Some(v) => v,
        None => return Err(owned("root_hash")),
    };
    let salt = match find_field(&fs, "salt") {
        Some(v) => v,
        None => return Err(owned("salt")),
    };
    let db = match number_of_field(&fs, "data_blocks") {
        Some(v) => v,
        None => return Err(owned("data_blocks")),
    };
    let dbs = match number_of_field(&fs, "data_block_size") {
        Some(v) => if v > 0 {
            v
        } else {
            return Err(owned("data_block_size"));
        },
        None => return Err(owned("data_block_size")),
    };
    let ghost fsv = KernelParams::params_view(fs@);
    assert(field_value(fsv, "root_hash"@) == Some(root_hash@));
    assert(field_value(fsv, "salt"@) == Some(salt@));
    assert(number_field(fsv, "data_blocks"@) == Some(db as int));
    assert(size_field(fsv, "data_block_size"@) == Some(dbs as int));
    let hbs = match number_of_field(&fs, "hash_block_size") {
        Some(v) => if v > 0 {
            v
        } else {
            assert(size_field(fsv, "hash_block_size"@) is None);
            return Err(owned("hash_block_size"));
        },
        None => {
            assert(size_field(fsv, "hash_block_size"@) is None);
            return Err(owned("hash_block_size"));
        },
    };
    let bytes = match db.checked_mul(dbs) {
        Some(b) => b,
        None => return Err(owned("data_blocks")),
    };
    let mut t = owned("\"dm-verity,,,ro,0 ");
    t.append(decimal_string(bytes / SECTOR_SIZE).as_str());
    t.append(" verity 1 ");
    t.append(dev);
    t.append(" ");
    t.append(dev);
    t.append(" ");
    t.append(decimal_string(dbs).as_str());
    t.append(" ");
    t.append(decimal_string(hbs).as_str());
    t.append(" ");
    t.append(decimal_string(db).as_str());
    t.append(" ");
    t.append(decimal_string(bytes / hbs).as_str());
    t.append(" sha256 ");
    t.append(root_hash.as_str());
    t.append(" ");
    t.append(salt.as_str());
    t.append("\"");
    Ok(t)
}

} // verus!
