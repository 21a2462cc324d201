use vstd::prelude::*;

verus! {

/// The system error code that Windows reports for a drive with no medium.
pub const ERROR_NOT_READY: i32 = 21;

/// Number of drive letters, `A` to `Z`.
pub const LETTER_COUNT: u32 = 26;

/// A failed system query, carrying the platform's last-error code.
#[derive(Debug, Clone, Copy, PartialEq, Eq, Structural)]
pub struct OsError {
    pub code: i32,
}

/// Whether a failed query stops the enumeration: every error does but
/// "device not ready", which only marks the drive as not ready.
pub fn aborts_enumeration(err: &OsError) -> (r: bool)
    ensures
        r == (err.code != ERROR_NOT_READY),
{
    err.code != ERROR_NOT_READY
}

/// Defines the drive types reported by `GetDriveTypeW`.
#[derive(Debug, Clone, Copy, PartialEq, Eq, Structural)]
pub enum DriveType {
    /// The drive type cannot be determined
    DriveUnknown,
    /// The root path is invalid; for example, there is no volume mounted at the specified path
    DriveNoRootDir,
    /// The drive has removable media; for example, a floppy drive, thumb drive, or flash card reader
    DriveRemovable,
    /// The drive has fixed media; for example, a hard disk drive or flash drive.
    DriveFixed,
    /// The drive is a remote (network) drive.
    DriveRemote,
    /// The drive is a CD-ROM drive.
    DriveCDRom,
    /// The drive is a RAM disk.
    DriveRamDisk,
}

/// The drive type that the system code `code` stands for (codes 0 to 6).
pub open spec fn drive_type_of(code: u32) -> DriveType
    recommends
        code <= 6,
{
    if code == 0 {
        DriveType::DriveUnknown
    } else if code == 1 {
        DriveType::DriveNoRootDir
    } else if code == 2 {
        DriveType::DriveRemovable
    } else if code == 3 {
        DriveType::DriveFixed
    } else if code == 4 {
        DriveType::DriveRemote
    } else if code == 5 {
        DriveType::DriveCDRom
    } else {
        DriveType::DriveRamDisk
    }
}

impl DriveType {
    /// The system code of this drive type.
    pub open spec fn code(self) -> u32 {
        match self {
            DriveType::DriveUnknown => 0,
            DriveType::DriveNoRootDir => 1,
            DriveType::DriveRemovable => 2,
            DriveType::DriveFixed => 3,
            DriveType::DriveRemote => 4,
            DriveType::DriveCDRom => 5,
            DriveType::DriveRamDisk => 6,
        }
    }

    /// Maps a code returned by `GetDriveTypeW` to its variant. The system
    /// defines the codes 0 to 6 only; any other code is a breach of its
    /// contract, so callers must not pass one.
    pub fn from(index: u32) -> (r: DriveType)
        requires
            index <= 6,
        ensures
            r == drive_type_of(index),
            r.code() == index,
    {
        match index {
            0 => DriveType::DriveUnknown,
            1 => DriveType::DriveNoRootDir,
            2 => DriveType::DriveRemovable,
            3 => DriveType::DriveFixed,
            4 => DriveType::DriveRemote,
            5 => DriveType::DriveCDRom,
            _ => DriveType::DriveRamDisk,
        }
    }
}

/// Every drive type is the image of its own code.
pub proof fn lemma_drive_type_code(t: DriveType)
    ensures
        t.code() <= 6,
        drive_type_of(t.code()) == t,
{
}

/// The codes 0 to 6 name seven distinct drive types, each carrying its code
/// back.
pub proof fn lemma_code_drive_type(c: u32, d: u32)
    requires
        c <= 6,
        d <= 6,
    ensures
        drive_type_of(c).code() == c,
        c != d ==> drive_type_of(c) != drive_type_of(d),
{
}

// ---------------------------------------------------------------------------
// UTF-16 buffers

/// The units of `s` that come before its first null unit (all of `s` when it
/// holds none).
pub open spec fn until_nul(s: Seq<u16>) -> Seq<u16>
    decreases s.len(),
{
    if s.len() == 0 || s[0] == 0 {
        Seq::empty()
    } else {
        seq![s[0]] + until_nul(s.drop_first())
    }
}

/// A UTF-16 surrogate unit, which encodes half of a character.
pub open spec fn is_surrogate(u: u16) -> bool {
    0xD800 <= u <= 0xDFFF
}

pub open spec fn no_surrogates(s: Seq<u16>) -> bool {
    forall|i: int| 0 <= i < s.len() ==> !is_surrogate(#[trigger] s[i])
}

/// `chars` holds, one for one, the characters whose values are the units.
pub open spec fn same_values(chars: Seq<char>, units: Seq<u16>) -> bool {
    &&& chars.len() == units.len()
    &&& forall|i: int| 0 <= i < units.len() ==> #[trigger] chars[i] as u32 == units[i] as u32
}

pub open spec fn is_high_surrogate(u: u16) -> bool {
    0xD800 <= u <= 0xDBFF
}

pub open spec fn is_low_surrogate(u: u16) -> bool {
    0xDC00 <= u <= 0xDFFF
}

/// The character that a high and a low surrogate encode together.
pub open spec fn pair_char(high: u16, low: u16) -> char {
    (0x10000 + (high - 0xD800) * 0x400 + (low - 0xDC00)) as char
}

/// Lossy UTF-16 decoding: a unit that is no surrogate is the character of its
/// value, a high surrogate followed by a low one is one character, and any
/// other surrogate becomes the replacement character U+FFFD.
pub open spec fn utf16_lossy(s: Seq<u16>) -> Seq<char>
    decreases s.len(),
{
    if s.len() == 0 {
        Seq::empty()
    } else if !is_surrogate(s[0]) {
        seq![(s[0] as u32) as char] + utf16_lossy(s.drop_first())
    } else if is_high_surrogate(s[0]) && s.len() >= 2 && is_low_surrogate(s[1]) {
        seq![pair_char(s[0], s[1])] + utf16_lossy(s.subrange(2, s.len() as int))
    } else {
        seq!['\u{FFFD}'] + utf16_lossy(s.drop_first())
    }
}

/// Relies on `String::from_utf16_lossy`: it decodes UTF-16, putting the
/// replacement character U+FFFD for each unpaired surrogate, and never fails.
#[verifier::external_body]
fn from_utf16_lossy(units: &[u16]) -> (r: String)
    ensures
        r@ == utf16_lossy(units@),
{
    String::from_utf16_lossy(units)
}

/// Units with no surrogate decode to the characters of their values.
pub proof fn lemma_lossy_plain(s: Seq<u16>)
    requires
        no_surrogates(s),
    ensures
        same_values(utf16_lossy(s), s),
    decreases s.len(),
{
    if s.len() > 0 {
        let t = s.drop_first();
        assert(!is_surrogate(s[0]));
        assert forall|i: int| 0 <= i < t.len() implies !is_surrogate(#[trigger] t[i]) by {
            assert(t[i] == s[i + 1]);
        }
        lemma_lossy_plain(t);
        let r = utf16_lossy(s);
        assert forall|i: int| 0 <= i < s.len() implies #[trigger] r[i] as u32 == s[i] as u32 by {
            if i > 0 {
                assert(r[i] == utf16_lossy(t)[i - 1]);
            }
        }
    }
}

/// Units with no null unit decode to a text with no null character.
pub proof fn lemma_lossy_no_nul(s: Seq<u16>)
    requires
        forall|i: int| 0 <= i < s.len() ==> s[i] != 0,
    ensures
        forall|i: int| 0 <= i < utf16_lossy(s).len() ==> #[trigger] utf16_lossy(s)[i] != '\0',
    decreases s.len(),
{
    if s.len() > 0 {
        let r = utf16_lossy(s);
        if !is_surrogate(s[0]) {
            let t = s.drop_first();
            assert forall|i: int| 0 <= i < t.len() implies t[i] != 0 by {
                assert(t[i] == s[i + 1]);
            }
            lemma_lossy_no_nul(t);
            assert(r[0] as u32 == s[0] as u32);
            assert forall|i: int| 0 <= i < r.len() implies #[trigger] r[i] != '\0' by {
                if i > 0 {
                    assert(r[i] == utf16_lossy(t)[i - 1]);
                }
            }
        } else if is_high_surrogate(s[0]) && s.len() >= 2 && is_low_surrogate(s[1]) {
            let t = s.subrange(2, s.len() as int);
            assert forall|i: int| 0 <= i < t.len() implies t[i] != 0 by {
                assert(t[i] == s[i + 2]);
            }
            lemma_lossy_no_nul(t);
            assert(r[0] as u32 >= 0x10000);
            assert forall|i: int| 0 <= i < r.len() implies #[trigger] r[i] != '\0' by {
                if i > 0 {
                    assert(r[i] == utf16_lossy(t)[i - 1]);
                }
            }
        } else {
            let t = s.drop_first();
            assert forall|i: int| 0 <= i < t.len() implies t[i] != 0 by {
                assert(t[i] == s[i + 1]);
            }
            lemma_lossy_no_nul(t);
            assert forall|i: int| 0 <= i < r.len() implies #[trigger] r[i] != '\0' by {
                if i > 0 {
                    assert(r[i] == utf16_lossy(t)[i - 1]);
                }
            }
        }
    }
}

/// `until_nul` holds no null unit.
proof fn lemma_until_nul_no_nul(s: Seq<u16>)
    ensures
        forall|i: int| 0 <= i < until_nul(s).len() ==> until_nul(s)[i] != 0,
    decreases s.len(),
{
    if s.len() > 0 && s[0] != 0 {
        lemma_until_nul_no_nul(s.drop_first());
        let u = until_nul(s);
        assert forall|i: int| 0 <= i < u.len() implies u[i] != 0 by {
            if i > 0 {
                assert(u[i] == until_nul(s.drop_first())[i - 1]);
            }
        }
    }
}

/// `until_nul` is the prefix up to the first null unit.
proof fn lemma_until_nul_at(s: Seq<u16>, n: int)
    requires
        0 <= n <= s.len(),
        forall|j: int| 0 <= j < n ==> s[j] != 0,
        n == s.len() || s[n] == 0,
    ensures
        until_nul(s) == s.take(n),
    decreases n,
{
    if n == 0 {
        assert(s.take(0) =~= Seq::<u16>::empty());
    } else {
        let t = s.drop_first();
        assert forall|j: int| 0 <= j < n - 1 implies t[j] != 0 by {
            assert(s[j + 1] != 0);
        }
        lemma_until_nul_at(t, n - 1);
        assert(seq![s[0]] + t.take(n - 1) =~= s.take(n));
    }
}

/// Decodes a null-terminated UTF-16 buffer: the text ends at the first null
/// unit, and what precedes it is decoded lossily.
pub fn vec_u16_to_string(vec: &[u16]) -> (r: String)
    ensures
        r@ == utf16_lossy(until_nul(vec@)),
        no_surrogates(until_nul(vec@)) ==> same_values(r@, until_nul(vec@)),
        forall|i: int| 0 <= i < r@.len() ==> r@[i] != '\0',
{
    let mut index: usize = 0;
    while index < vec.len()
        invariant
            index <= vec@.len(),
            forall|j: int| 0 <= j < index ==> vec@[j] != 0,
        ensures
            index <= vec@.len(),
            forall|j: int| 0 <= j < index ==> vec@[j] != 0,
            index == vec@.len() || vec@[index as int] == 0,
        decreases vec@.len() - index,
    {
        if vec[index] == 0 {
            break;
        }
        index = index + 1;
    }
    proof {
        lemma_until_nul_at(vec@, index as int);
        lemma_until_nul_no_nul(vec@);
        lemma_lossy_no_nul(until_nul(vec@));
        if no_surrogates(until_nul(vec@)) {
            lemma_lossy_plain(until_nul(vec@));
        }
    }
    let text = vstd::slice::slice_subrange(vec, 0, index);
    assert(text@ =~= vec@.take(index as int));
    from_utf16_lossy(text)
}

/// A buffer that holds a text free of null units followed by null padding
/// decodes from exactly that text; a buffer of nulls alone holds no text.
pub proof fn lemma_null_padded(text: Seq<u16>, pad: nat)
    requires
        forall|i: int| 0 <= i < text.len() ==> text[i] != 0,
    ensures
        until_nul(text + Seq::new(pad, |i: int| 0u16)) == text,
        until_nul(Seq::new(pad, |i: int| 0u16)) == Seq::<u16>::empty(),
{
    let padded = text + Seq::new(pad, |i: int| 0u16);
    lemma_until_nul_at(padded, text.len() as int);
    assert(padded.take(text.len() as int) =~= text);
    lemma_until_nul_at(Seq::new(pad, |i: int| 0u16), 0);
    assert(Seq::new(pad, |i: int| 0u16).take(0) =~= Seq::<u16>::empty());
}

// ---------------------------------------------------------------------------
// Logical-drive bitmask

/// Bit `k` of `m` is set.
pub open spec fn bit_set(m: u32, k: nat) -> bool {
    (m >> (k as u32)) & 1u32 == 1u32
}

/// The letter of the drive with index `k`, counting `A` as 0.
pub open spec fn letter(k: nat) -> char {
    (65 + k) as char
}

/// The letters of the bits of `m` set among its `n` lowest, in ascending order.
pub open spec fn mask_letters_below(m: u32, n: nat) -> Seq<char>
    decreases n,
{
    if n == 0 {
        Seq::empty()
    } else if bit_set(m, (n - 1) as nat) {
        mask_letters_below(m, (n - 1) as nat).push(letter((n - 1) as nat))
    } else {
        mask_letters_below(m, (n - 1) as nat)
    }
}

/// The drive letters that the bitmask `m` assigns.
pub open spec fn mask_letters(m: u32) -> Seq<char> {
    mask_letters_below(m, 26)
}

/// How many of the `n` lowest bits of `m` are set.
pub open spec fn count_bits_below(m: u32, n: nat) -> nat
    decreases n,
{
    if n == 0 {
        0
    } else {
        count_bits_below(m, (n - 1) as nat) + if bit_set(m, (n - 1) as nat) {
            1nat
        } else {
            0nat
        }
    }
}

/// What the drive enumeration yields for the bitmask `m` that the system gave,
/// with `last_error` its last-error code: a zero bitmask means failure.
pub open spec fn logical_drives_spec(m: u32, last_error: i32) -> Result<Seq<char>, OsError> {
    if m == 0 {
        Err(OsError { code: last_error })
    } else {
        Ok(mask_letters(m))
    }
}

/// Decodes the bitmask of `GetLogicalDrives`: bit `n` set means that the
/// letter `'A' + n` is assigned. The letters come in ascending order.
pub fn letters_of_mask(bitmask: u32) -> (r: Vec<char>)
    ensures
        r@ == mask_letters(bitmask),
{
    let mut result: Vec<char> = Vec::new();
    let mut index: u32 = 0;
    while index < LETTER_COUNT
        invariant
            index <= 26,
            result@ == mask_letters_below(bitmask, index as nat),
        decreases 26 - index,
    {
        if (bitmask >> index) & 1u32 == 1u32 {
            let c = (65u8 + index as u8) as char;
            result.push(c);
        }
        index = index + 1;
    }
    result
}

/// The logical drives of the host, from the bitmask that `GetLogicalDrives`
/// returned and the last-error code read right after it. A zero bitmask is the
/// system's signal of failure.
pub fn get_logical_drive_from(bitmask: u32, last_error: i32) -> (r: Result<Vec<char>, OsError>)
    ensures
        match logical_drives_spec(bitmask, last_error) {
            Ok(letters) => r is Ok && r->Ok_0@ == letters,
            Err(e) => r == Err::<Vec<char>, OsError>(e),
        },
{
    if bitmask == 0 {
        Err(OsError { code: last_error })
    } else {
        Ok(letters_of_mask(bitmask))
    }
}

/// For every bitmask, the letters decoded from its 26 low bits number as many
/// as the bits set there, ascend strictly, and are exactly the letters of the
/// set bits.
pub proof fn lemma_mask_letters(m: u32)
    ensures
        mask_letters(m).len() == count_bits_below(m, 26),
        forall|i: int, j: int|
            0 <= i < j < mask_letters(m).len() ==> (mask_letters(m)[i] as u32) < (
            mask_letters(m)[j] as u32),
        forall|k: nat| k < 26 ==> (bit_set(m, k) <==> mask_letters(m).contains(letter(k))),
{
    lemma_mask_letters_below(m, 26);
}

proof fn lemma_mask_letters_below(m: u32, n: nat)
    requires
        n <= 26,
    ensures
        mask_letters_below(m, n).len() == count_bits_below(m, n),
        forall|i: int|
            0 <= i < mask_letters_below(m, n).len() ==> 65 <= (#[trigger] mask_letters_below(
                m,
                n,
            )[i] as u32) < 65 + n,
        forall|i: int, j: int|
            0 <= i < j < mask_letters_below(m, n).len() ==> (mask_letters_below(m, n)[i] as u32)
                < (mask_letters_below(m, n)[j] as u32),
        forall|k: nat| k < n ==> (bit_set(m, k) <==> mask_letters_below(m, n).contains(letter(k))),
    decreases n,
{
    if n > 0 {
        let p = (n - 1) as nat;
        lemma_mask_letters_below(m, p);
        let prev = mask_letters_below(m, p);
        let cur = mask_letters_below(m, n);
        assert forall|k: nat| k < n implies (bit_set(m, k) <==> cur.contains(letter(k))) by {
            if k < p {
                if bit_set(m, p) {
                    if cur.contains(letter(k)) {
                        let i = choose|i: int| 0 <= i < cur.len() && cur[i] == letter(k);
                        if i < prev.len() {
                            assert(prev[i] == cur[i]);
                        }
                    }
                    if prev.contains(letter(k)) {
                        let i = choose|i: int| 0 <= i < prev.len() && prev[i] == letter(k);
                        assert(cur[i] == letter(k));
                    }
                }
            } else {
                if bit_set(m, p) {
                    assert(cur[cur.len() - 1] == letter(k));
                } else {
                    if cur.contains(letter(k)) {
                        let i = choose|i: int| 0 <= i < cur.len() && cur[i] == letter(k);
                        assert(65 <= (prev[i] as u32) < 65 + p);
                    }
                }
            }
        }
    }
}

} // verus!
