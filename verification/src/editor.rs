//! The editor that texts are edited in, and the drafts that outlive it.

use crate::text::{cat2, cat4, opt_string, strs, to_chars, trim, trim_of};
use crate::worktree::path_resolver::{join_path, joined};
use vstd::prelude::*;
use vstd::utf8::encode_utf8;

verus! {

/// The value, unless it is blank.
pub open spec fn unless_blank(value: Option<Seq<char>>) -> Option<Seq<char>> {
    match value {
        Some(v) => if trim_of(v).len() > 0 {
            Some(v)
        } else {
            None
        },
        None => None,
    }
}

/// The value, unless it is blank: a setting or a variable that holds nothing counts as not set.
pub fn non_blank(value: Option<String>) -> (r: Option<String>)
    ensures
        opt_string(r) == unless_blank(opt_string(value)),
{
    match value {
        Some(v) => {
            let t = trim(v.as_str());
            if t.as_str().is_empty() {
                None
            } else {
                Some(v)
            }
        },
        None => None,
    }
}

/// The editor: `GIT_EDITOR` comes first, then `core.editor`, `VISUAL` and `EDITOR`, and `vi` last.
pub fn select_editor(
    git_editor: Option<String>,
    core_editor: Option<String>,
    visual: Option<String>,
    editor: Option<String>,
) -> (r: String)
    ensures
        r@ == match opt_string(git_editor) {
            Some(v) => v,
            None => match opt_string(core_editor) {
                Some(v) => v,
                None => match opt_string(visual) {
                    Some(v) => v,
                    None => match opt_string(editor) {
                        Some(v) => v,
                        None => "vi"@,
                    },
                },
            },
        },
{
    match git_editor {
        Some(v) => v,
        None => match core_editor {
            Some(v) => v,
            None => match visual {
                Some(v) => v,
                None => match editor {
                    Some(v) => v,
                    None => "vi".to_owned(),
                },
            },
        },
    }
}

/// The editor, from settings and variables of which some may be blank.
pub fn resolve_editor(
    git_editor: Option<String>,
    core_editor: Option<String>,
    visual: Option<String>,
    editor: Option<String>,
) -> (r: String)
    ensures
        r@ == match unless_blank(opt_string(git_editor)) {
            Some(v) => v,
            None => match unless_blank(opt_string(core_editor)) {
                Some(v) => v,
                None => match unless_blank(opt_string(visual)) {
                    Some(v) => v,
                    None => match unless_blank(opt_string(editor)) {
                        Some(v) => v,
                        None => "vi"@,
                    },
                },
            },
        },
{
    select_editor(
        non_blank(git_editor),
        non_blank(core_editor),
        non_blank(visual),
        non_blank(editor),
    )
}

/// How a shell is called to run an editor, which is a command line, on a file.
pub fn editor_command(editor: &str, path: &str) -> (r: Vec<String>)
    ensures
        strs(r@) == seq!["-c"@, editor@ + " \"$@\""@, editor@, path@],
{
    let line = cat2(editor, " \"$@\"");
    let r = crate::text::list(&["-c", line.as_str(), editor, path]);
    assert(strs(r@) =~= seq!["-c"@, editor@ + " \"$@\""@, editor@, path@]);
    r
}

/// How the command interpreter of Windows is called to run an editor on a file.
pub fn windows_editor_command(editor: &str, path: &str) -> (r: Vec<String>)
    ensures
        strs(r@) == seq!["/C"@, editor@ + " \""@ + path@ + "\""@],
{
    let line = cat4(editor, " \"", path, "\"");
    let r = crate::text::list(&["/C", line.as_str()]);
    assert(strs(r@) =~= seq!["/C"@, editor@ + " \""@ + path@ + "\""@]);
    r
}

/// The character can stand in the name of a draft.
pub open spec fn is_plain(c: char) -> bool {
    ('a' <= c && c <= 'z') || ('A' <= c && c <= 'Z') || ('0' <= c && c <= '9') || c == '-' || c
        == '_' || c == '.'
}

fn plain(c: char) -> (r: bool)
    ensures
        r == is_plain(c),
{
    ('a' <= c && c <= 'z') || ('A' <= c && c <= 'Z') || ('0' <= c && c <= '9') || c == '-' || c
        == '_' || c == '.'
}

/// A key with a dash for every character that cannot stand in a name.
pub open spec fn safe_key(key: Seq<char>) -> Seq<char> {
    Seq::new(
        key.len(),
        |i: int|
            if is_plain(key[i]) {
                key[i]
            } else {
                '-'
            },
    )
}

fn make_safe(key: &str) -> (r: String)
    ensures
        r@ == safe_key(key@),
{
    let v = to_chars(key);
    let mut out = String::new();
    let mut i: usize = 0;
    while i < v.len()
        invariant
            i <= v@.len(),
            v@ == key@,
            out@ == safe_key(key@).take(i as int),
        decreases v@.len() - i,
    {
        out.push(
            if plain(v[i]) {
                v[i]
            } else {
                '-'
            },
        );
        assert(out@ =~= safe_key(key@).take(i + 1));
        i += 1;
    }
    assert(safe_key(key@).take(v@.len() as int) =~= safe_key(key@));
    out
}

/// The FNV-1a hash of bytes.
pub open spec fn fnv1a(bytes: Seq<u8>) -> u64
    decreases bytes.len(),
{
    if bytes.len() == 0 {
        0xcbf2_9ce4_8422_2325
    } else {
        vstd::wrapping::u64_specs::wrapping_mul(
            fnv1a(bytes.drop_last()) ^ (bytes.last() as u64),
            0x0000_0100_0000_01b3,
        )
    }
}

/// The two halves of a number, one over the other.
pub open spec fn folded(h: u64) -> u32 {
    (h ^ (h >> 32)) as u32
}

/// The number that tells keys apart which look alike in a name.
pub open spec fn key_hash(key: Seq<char>) -> u32 {
    folded(fnv1a(encode_utf8(key)))
}

/// The number that tells keys apart which look alike in a name.
pub fn draft_key_hash(key: &str) -> (r: u32)
    ensures
        r == key_hash(key@),
{
    let bytes = key.as_bytes();
    let n: usize = bytes.len();
    let mut hash: u64 = 0xcbf2_9ce4_8422_2325;
    let mut i: usize = 0;
    while i < n
        invariant
            i <= n,
            n == bytes@.len(),
            bytes@ == encode_utf8(key@),
            hash == fnv1a(bytes@.take(i as int)),
        decreases n - i,
    {
        proof {
            assert(bytes@.take(i + 1).drop_last() =~= bytes@.take(i as int));
            assert(bytes@.take(i + 1).last() == bytes@[i as int]);
        }
        hash = (hash ^ (bytes[i] as u64)).wrapping_mul(0x0000_0100_0000_01b3);
        i += 1;
    }
    assert(bytes@.take(n as int) =~= bytes@);
    #[verifier::truncate]
    let low: u32 = (hash ^ (hash >> 32)) as u32;
    low
}

pub open spec fn hex_digit(n: int) -> char {
    if n == 0 {
        '0'
    } else if n == 1 {
        '1'
    } else if n == 2 {
        '2'
    } else if n == 3 {
        '3'
    } else if n == 4 {
        '4'
    } else if n == 5 {
        '5'
    } else if n == 6 {
        '6'
    } else if n == 7 {
        '7'
    } else if n == 8 {
        '8'
    } else if n == 9 {
        '9'
    } else if n == 10 {
        'a'
    } else if n == 11 {
        'b'
    } else if n == 12 {
        'c'
    } else if n == 13 {
        'd'
    } else if n == 14 {
        'e'
    } else {
        'f'
    }
}

fn hex_char(n: u32) -> (r: char)
    requires
        n < 16,
    ensures
        r == hex_digit(n as int),
{
    match n {
        0 => '0',
        1 => '1',
        2 => '2',
        3 => '3',
        4 => '4',
        5 => '5',
        6 => '6',
        7 => '7',
        8 => '8',
        9 => '9',
        10 => 'a',
        11 => 'b',
        12 => 'c',
        13 => 'd',
        14 => 'e',
        _ => 'f',
    }
}

/// The last `digits` digits of a number to the base sixteen.
pub open spec fn hex(n: nat, digits: nat) -> Seq<char>
    decreases digits,
{
    if digits == 0 {
        Seq::empty()
    } else {
        hex(n / 16, (digits - 1) as nat).push(hex_digit((n % 16) as int))
    }
}

fn to_hex(n: u32, digits: u32) -> (r: String)
    ensures
        r@ == hex(n as nat, digits as nat),
    decreases digits,
{
    if digits == 0 {
        String::new()
    } else {
        let mut out = to_hex(n / 16, digits - 1);
        out.push(hex_char(n % 16));
        out
    }
}

/// The name of the file that holds the draft for a key.
pub open spec fn draft_name(key: Seq<char>) -> Seq<char> {
    safe_key(key) + "-"@ + hex(key_hash(key) as nat, 8) + ".md"@
}

/// The file that holds the draft for a key, below git's directory.
pub fn draft_path(git_dir: &str, key: &str) -> (r: String)
    ensures
        r@ == joined(joined(git_dir@, "kindra-drafts"@), draft_name(key@)),
{
    let safe = make_safe(key);
    let hash = to_hex(draft_key_hash(key), 8);
    let name = cat4(safe.as_str(), "-", hash.as_str(), ".md");
    let dir = join_path(git_dir, "kindra-drafts");
    join_path(dir.as_str(), name.as_str())
}

proof fn lemma_hex(n: nat, digits: nat)
    ensures
        hex(n, digits).len() == digits,
        forall|i: int| 0 <= i < digits ==> is_plain(#[trigger] hex(n, digits)[i]),
    decreases digits,
{
    if digits > 0 {
        lemma_hex(n / 16, (digits - 1) as nat);
        let before = hex(n / 16, (digits - 1) as nat);
        assert forall|i: int| 0 <= i < digits implies is_plain(#[trigger] hex(n, digits)[i]) by {
            if i < digits - 1 {
                assert(hex(n, digits)[i] == before[i]);
            }
        }
    }
}

/// The name of a draft holds no separator: the draft stays in its directory whatever the key.
pub proof fn law_draft_stays_in_its_directory(key: Seq<char>)
    ensures
        forall|i: int|
            0 <= i < draft_name(key).len() ==> is_plain(#[trigger] draft_name(key)[i]),
        !draft_name(key).contains('/'),
{
    reveal_strlit("-");
    reveal_strlit(".md");
    let safe = safe_key(key);
    let h = hex(key_hash(key) as nat, 8);
    lemma_hex(key_hash(key) as nat, 8);
    let name = draft_name(key);
    assert forall|i: int| 0 <= i < name.len() implies is_plain(#[trigger] name[i]) by {
        if i < safe.len() {
            assert(name[i] == safe[i]);
        } else if i == safe.len() {
            assert(name[i] == "-"@[0]);
        } else if i < safe.len() + 9 {
            assert(name[i] == h[i - safe.len() - 1]);
        } else {
            assert(name[i] == ".md"@[i - safe.len() - 9]);
        }
    }
    if name.contains('/') {
        let k = name.index_of('/');
        assert(is_plain(name[k]));
    }
}

proof fn lemma_hex_digit_tells_apart(a: int, b: int)
    requires
        0 <= a < 16,
        0 <= b < 16,
        hex_digit(a) == hex_digit(b),
    ensures
        a == b,
{
}

proof fn lemma_hex_tells_apart(a: nat, b: nat, digits: nat)
    requires
        hex(a, digits) == hex(b, digits),
    ensures
        a % vstd::arithmetic::power::pow(16, digits) as nat == b % vstd::arithmetic::power::pow(
            16,
            digits,
        ) as nat,
    decreases digits,
{
    vstd::arithmetic::power::lemma_pow0(16);
    vstd::arithmetic::power::lemma_pow_positive(16, digits);
    if digits > 0 {
        let x = hex(a / 16, (digits - 1) as nat);
        let y = hex(b / 16, (digits - 1) as nat);
        let da = hex_digit((a % 16) as int);
        let db = hex_digit((b % 16) as int);
        assert(x.push(da).last() == da && y.push(db).last() == db);
        assert(x.push(da).drop_last() =~= x && y.push(db).drop_last() =~= y);
        lemma_hex_tells_apart(a / 16, b / 16, (digits - 1) as nat);
        lemma_hex_digit_tells_apart((a % 16) as int, (b % 16) as int);
        let p = vstd::arithmetic::power::pow(16, (digits - 1) as nat);
        vstd::arithmetic::power::lemma_pow_positive(16, (digits - 1) as nat);
        reveal(vstd::arithmetic::power::pow);
        assert(vstd::arithmetic::power::pow(16, digits) == 16 * p);
        vstd::arithmetic::div_mod::lemma_mod_breakdown(a as int, 16, p);
        vstd::arithmetic::div_mod::lemma_mod_breakdown(b as int, 16, p);
    }
}

/// Keys that differ in what they leave in the name, or in their hash, get different drafts, though
/// they may look alike.
pub proof fn law_drafts_are_told_apart(a: Seq<char>, b: Seq<char>)
    requires
        safe_key(a) != safe_key(b) || key_hash(a) != key_hash(b),
    ensures
        draft_name(a) != draft_name(b),
{
    reveal_strlit("-");
    reveal_strlit(".md");
    let x = draft_name(a);
    let y = draft_name(b);
    lemma_hex(key_hash(a) as nat, 8);
    lemma_hex(key_hash(b) as nat, 8);
    if x == y {
        let n = safe_key(a).len() as int;
        assert(x.len() == n + 12);
        assert(y.len() == safe_key(b).len() + 12);
        assert(x.take(n) =~= safe_key(a));
        assert(y.take(n) =~= safe_key(b));
        let h = hex(key_hash(a) as nat, 8);
        let k = hex(key_hash(b) as nat, 8);
        assert(x.subrange(n + 1, n + 9) =~= h);
        assert(y.subrange(n + 1, n + 9) =~= k);
        lemma_hex_tells_apart(key_hash(a) as nat, key_hash(b) as nat, 8);
        assert(vstd::arithmetic::power::pow(16, 8) == 0x1_0000_0000) by {
            reveal(vstd::arithmetic::power::pow);
            reveal_with_fuel(vstd::arithmetic::power::pow, 9);
        }
        assert(key_hash(a) as nat % 0x1_0000_0000 == key_hash(a) as nat);
        assert(key_hash(b) as nat % 0x1_0000_0000 == key_hash(b) as nat);
    }
}

/// A draft on disk, which stays there until it is discarded.
#[derive(Debug)]
pub struct Draft {
    path: String,
}

/// How an edit of a draft begins.
#[derive(Debug, Clone, Copy, PartialEq, Eq, Structural)]
pub enum DraftStart {
    /// The text on disk is opened as it is.
    Reopen,
    /// The new text is written first.
    Write,
}

impl View for Draft {
    type V = Seq<char>;

    closed spec fn view(&self) -> Seq<char> {
        self.path@
    }
}

impl Draft {
    pub fn new(path: String) -> (r: Draft)
        ensures
            r@ == path@,
    {
        Draft { path }
    }

    pub fn path(&self) -> (r: &str)
        ensures
            r@ == self@,
    {
        self.path.as_str()
    }

    /// What an earlier edit left behind, from what is on disk: nothing where that is blank.
    pub fn recover(&self, on_disk: Option<String>) -> (r: Option<String>)
        ensures
            opt_string(r) == unless_blank(opt_string(on_disk)),
    {
        non_blank(on_disk)
    }

    /// How an edit begins: what an earlier edit left behind is never written over.
    pub fn edit_or_resume(&self, on_disk: Option<String>) -> (r: DraftStart)
        ensures
            r == if unless_blank(opt_string(on_disk)) is Some {
                DraftStart::Reopen
            } else {
                DraftStart::Write
            },
    {
        if self.recover(on_disk).is_some() {
            DraftStart::Reopen
        } else {
            DraftStart::Write
        }
    }
}

/// The hash is FNV-1a's: it begins with the offset basis, and each byte is taken in by exclusive or
/// before the multiplication by the prime. Its two halves are laid over each other.
pub proof fn law_hash_takes_in_every_byte(bytes: Seq<u8>, b: u8, h: u64)
    ensures
        fnv1a(Seq::empty()) == 0xcbf2_9ce4_8422_2325u64,
        fnv1a(bytes.push(b)) == vstd::wrapping::u64_specs::wrapping_mul(
            fnv1a(bytes) ^ (b as u64),
            0x0000_0100_0000_01b3u64,
        ),
        folded(h) == (h as u32) ^ ((h >> 32u64) as u32),
{
    assert(bytes.push(b).drop_last() =~= bytes);
    assert((h ^ (h >> 32u64)) as u32 == (h as u32) ^ ((h >> 32u64) as u32)) by (bit_vector);
}

/// A value counts as not set exactly where it is blank, and is else taken as it is.
pub proof fn law_blank_value_counts_as_not_set(value: Option<Seq<char>>)
    ensures
        unless_blank(value) is None <==> value is None || trim_of(value->0).len() == 0,
        unless_blank(value) is Some ==> unless_blank(value) == value,
{
}

} // verus!
