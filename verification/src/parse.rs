//! Byte-level parsing of the kernel-interface text records.
//!
//! Every executable function mirrors a specification twin exactly, so the
//! contracts pin the parsed value down completely. The records are treated
//! as raw bytes; tokens are separated by ASCII whitespace.

use vstd::prelude::*;

verus! {

/// True for the ASCII whitespace bytes that separate tokens in the
/// kernel-interface records (space, tab, line feed, carriage return).
pub open spec fn is_space(b: u8) -> bool {
    b == 32 || b == 9 || b == 10 || b == 13
}

fn is_space_x(b: u8) -> (r: bool)
    ensures
        r == is_space(b),
{
    b == 32 || b == 9 || b == 10 || b == 13
}

/// True for the ASCII decimal digits.
pub open spec fn is_digit(b: u8) -> bool {
    48 <= b && b <= 57
}

fn is_digit_x(b: u8) -> (r: bool)
    ensures
        r == is_digit(b),
{
    48 <= b && b <= 57
}

/// Index of the first occurrence of `b` in `s` at or after `i`;
/// `s.len()` if there is none.
pub open spec fn spec_find_byte(s: Seq<u8>, i: int, b: u8) -> int
    decreases s.len() - i,
{
    if i < 0 || i >= s.len() {
        s.len() as int
    } else if s[i] == b {
        i
    } else {
        spec_find_byte(s, i + 1, b)
    }
}

pub proof fn lemma_find_byte_bounds(s: Seq<u8>, i: int, b: u8)
    requires
        0 <= i <= s.len(),
    ensures
        i <= spec_find_byte(s, i, b) <= s.len(),
    decreases s.len() - i,
{
    if i < s.len() && s[i] != b {
        lemma_find_byte_bounds(s, i + 1, b);
    }
}

pub(crate) fn find_byte(s: &[u8], i: usize, b: u8) -> (r: usize)
    requires
        i <= s@.len(),
    ensures
        r as int == spec_find_byte(s@, i as int, b),
        i <= r <= s@.len(),
    decreases s@.len() - i,
{
    if i >= s.len() {
        s.len()
    } else if s[i] == b {
        i
    } else {
        find_byte(s, i + 1, b)
    }
}

/// First index at or after `i` that holds a non-whitespace byte;
/// `s.len()` if there is none.
pub open spec fn spec_skip_spaces(s: Seq<u8>, i: int) -> int
    decreases s.len() - i,
{
    if i < 0 || i >= s.len() {
        s.len() as int
    } else if is_space(s[i]) {
        spec_skip_spaces(s, i + 1)
    } else {
        i
    }
}

pub proof fn lemma_skip_spaces_bounds(s: Seq<u8>, i: int)
    requires
        0 <= i <= s.len(),
    ensures
        i <= spec_skip_spaces(s, i) <= s.len(),
        spec_skip_spaces(s, i) < s.len() ==> !is_space(s[spec_skip_spaces(s, i)]),
    decreases s.len() - i,
{
    if i < s.len() && is_space(s[i]) {
        lemma_skip_spaces_bounds(s, i + 1);
    }
}

fn skip_spaces(s: &[u8], i: usize) -> (r: usize)
    requires
        i <= s@.len(),
    ensures
        r as int == spec_skip_spaces(s@, i as int),
        i <= r <= s@.len(),
        r < s@.len() ==> !is_space(s@[r as int]),
    decreases s@.len() - i,
{
    if i >= s.len() {
        s.len()
    } else if is_space_x(s[i]) {
        skip_spaces(s, i + 1)
    } else {
        i
    }
}

/// First index at or after `i` that holds a whitespace byte;
/// `s.len()` if there is none.
pub open spec fn spec_token_end(s: Seq<u8>, i: int) -> int
    decreases s.len() - i,
{
    if i < 0 || i >= s.len() {
        s.len() as int
    } else if !is_space(s[i]) {
        spec_token_end(s, i + 1)
    } else {
        i
    }
}

pub proof fn lemma_token_end_bounds(s: Seq<u8>, i: int)
    requires
        0 <= i <= s.len(),
    ensures
        i <= spec_token_end(s, i) <= s.len(),
    decreases s.len() - i,
{
    if i < s.len() && !is_space(s[i]) {
        lemma_token_end_bounds(s, i + 1);
    }
}

fn token_end(s: &[u8], i: usize) -> (r: usize)
    requires
        i <= s@.len(),
    ensures
        r as int == spec_token_end(s@, i as int),
        i <= r <= s@.len(),
        i < s@.len() && !is_space(s@[i as int]) ==> r > i,
    decreases s@.len() - i,
{
    if i >= s.len() {
        s.len()
    } else if !is_space_x(s[i]) {
        token_end(s, i + 1)
    } else {
        i
    }
}

pub open spec fn spec_parse_u64_from(s: Seq<u8>, i: int, acc: u64) -> Option<u64>
    decreases s.len() - i,
{
    if i < 0 || i >= s.len() {
        Some(acc)
    } else if !is_digit(s[i]) {
        None
    } else if acc > (u64::MAX - ((s[i] - 48) as u64)) / 10 {
        None
    } else {
        spec_parse_u64_from(s, i + 1, (10 * acc + ((s[i] - 48) as u64)) as u64)
    }
}

fn parse_u64_from(s: &[u8], i: usize, acc: u64) -> (r: Option<u64>)
    requires
        i <= s@.len(),
    ensures
        r == spec_parse_u64_from(s@, i as int, acc),
    decreases s@.len() - i,
{
    if i >= s.len() {
        Some(acc)
    } else {
        let b = s[i];
        if !is_digit_x(b) {
            None
        } else {
            let d = (b - 48) as u64;
            if acc > (u64::MAX - d) / 10 {
                None
            } else {
                parse_u64_from(s, i + 1, 10 * acc + d)
            }
        }
    }
}

/// Value of an unsigned decimal numeral: `Some` exactly when `s` is
/// non-empty, all digits, and the value fits in a `u64`.
pub open spec fn spec_parse_u64(s: Seq<u8>) -> Option<u64> {
    if s.len() == 0 {
        None
    } else {
        spec_parse_u64_from(s, 0, 0)
    }
}

pub fn parse_u64(s: &[u8]) -> (r: Option<u64>)
    ensures
        r == spec_parse_u64(s@),
{
    if s.len() == 0 {
        None
    } else {
        parse_u64_from(s, 0, 0)
    }
}

/// As [`spec_parse_u64`], further requiring the value to fit in a `u32`.
pub open spec fn spec_parse_u32(s: Seq<u8>) -> Option<u32> {
    match spec_parse_u64(s) {
        Some(v) => if v <= u32::MAX as u64 {
            Some(v as u32)
        } else {
            None
        },
        None => None,
    }
}

pub fn parse_u32(s: &[u8]) -> (r: Option<u32>)
    ensures
        r == spec_parse_u32(s@),
{
    match parse_u64(s) {
        Some(v) => if v <= u32::MAX as u64 {
            Some(v as u32)
        } else {
            None
        },
        None => None,
    }
}

/// Whether `p` is a prefix of `s`.
pub open spec fn spec_starts_with(s: Seq<u8>, p: Seq<u8>) -> bool {
    p.len() <= s.len() && s.subrange(0, p.len() as int) == p
}

fn starts_with(s: &[u8], p: &[u8]) -> (r: bool)
    ensures
        r == spec_starts_with(s@, p@),
{
    if p.len() > s.len() {
        return false;
    }
    let mut k: usize = 0;
    while k < p.len()
        invariant
            k <= p@.len() <= s@.len(),
            forall|m: int| 0 <= m < k ==> s@[m] == p@[m],
        decreases p@.len() - k,
    {
        if s[k] != p[k] {
            return false;
        }
        k += 1;
    }
    proof {
        assert(s@.subrange(0, p@.len() as int) =~= p@);
    }
    true
}

fn bytes_eq(a: &[u8], b: &[u8]) -> (r: bool)
    ensures
        r == (a@ == b@),
{
    if a.len() != b.len() {
        return false;
    }
    let mut k: usize = 0;
    while k < a.len()
        invariant
            k <= a@.len() == b@.len(),
            forall|m: int| 0 <= m < k ==> a@[m] == b@[m],
        decreases a@.len() - k,
    {
        if a[k] != b[k] {
            return false;
        }
        k += 1;
    }
    proof {
        assert(a@ =~= b@);
    }
    true
}

/// The byte sequence of an `Option<Vec<u8>>`, for stating contracts.
pub open spec fn opt_bytes(r: Option<Vec<u8>>) -> Option<Seq<u8>> {
    match r {
        Some(v) => Some(v@),
        None => None,
    }
}

/// The `n`-th (0-based) whitespace-separated token at or after `i`.
pub open spec fn spec_nth_token_from(s: Seq<u8>, i: int, n: nat) -> Option<Seq<u8>>
    decreases n,
{
    let j = spec_skip_spaces(s, i);
    if j >= s.len() {
        None
    } else {
        let e = spec_token_end(s, j);
        if n == 0 {
            Some(s.subrange(j, e))
        } else {
            spec_nth_token_from(s, e, (n - 1) as nat)
        }
    }
}

/// The `n`-th (0-based) whitespace-separated token of `s`.
pub open spec fn spec_nth_token(s: Seq<u8>, n: nat) -> Option<Seq<u8>> {
    spec_nth_token_from(s, 0, n)
}

fn nth_token_from(s: &[u8], i: usize, n: usize) -> (r: Option<Vec<u8>>)
    requires
        i <= s@.len(),
    ensures
        opt_bytes(r) == spec_nth_token_from(s@, i as int, n as nat),
    decreases n,
{
    let j = skip_spaces(s, i);
    if j >= s.len() {
        None
    } else {
        let e = token_end(s, j);
        if n == 0 {
            Some(vstd::slice::slice_to_vec(vstd::slice::slice_subrange(s, j, e)))
        } else {
            nth_token_from(s, e, n - 1)
        }
    }
}

/// The `n`-th whitespace-separated token of `s`, copied out.
pub fn nth_token(s: &[u8], n: usize) -> (r: Option<Vec<u8>>)
    ensures
        opt_bytes(r) == spec_nth_token(s@, n as nat),
{
    nth_token_from(s, 0, n)
}

/// The last whitespace-separated token at or after `i`, if any.
pub open spec fn spec_last_token_from(s: Seq<u8>, i: int) -> Option<Seq<u8>>
    decreases s.len() - i,
    via spec_last_token_from_dec
{
    if i < 0 || i >= s.len() {
        None
    } else {
        let j = spec_skip_spaces(s, i);
        if j >= s.len() {
            None
        } else {
            let e = spec_token_end(s, j);
            match spec_last_token_from(s, e) {
                Some(t) => Some(t),
                None => Some(s.subrange(j, e)),
            }
        }
    }
}

#[via_fn]
proof fn spec_last_token_from_dec(s: Seq<u8>, i: int) {
    if 0 <= i && i < s.len() {
        lemma_skip_spaces_bounds(s, i);
        let j = spec_skip_spaces(s, i);
        if j < s.len() {
            lemma_token_end_bounds(s, j);
            lemma_token_end_bounds(s, j + 1);
            assert(spec_token_end(s, j) == spec_token_end(s, j + 1));
        }
    }
}

/// The last whitespace-separated token of `s`.
pub open spec fn spec_last_token(s: Seq<u8>) -> Option<Seq<u8>> {
    spec_last_token_from(s, 0)
}

fn last_token_from(s: &[u8], i: usize) -> (r: Option<Vec<u8>>)
    requires
        i <= s@.len(),
    ensures
        opt_bytes(r) == spec_last_token_from(s@, i as int),
    decreases s@.len() - i,
{
    if i >= s.len() {
        return None;
    }
    let j = skip_spaces(s, i);
    if j >= s.len() {
        None
    } else {
        let e = token_end(s, j);
        proof {
            lemma_token_end_bounds(s@, j + 1);
        }
        match last_token_from(s, e) {
            Some(t) => Some(t),
            None => Some(vstd::slice::slice_to_vec(vstd::slice::slice_subrange(s, j, e))),
        }
    }
}

/// The last whitespace-separated token of `s`, copied out.
pub fn last_token(s: &[u8]) -> (r: Option<Vec<u8>>)
    ensures
        opt_bytes(r) == spec_last_token(s@),
{
    last_token_from(s, 0)
}

/// The `n`-th (0-based) colon-separated field of `s` starting at `i`.
/// Unlike tokens, fields may be empty.
pub open spec fn spec_nth_field(s: Seq<u8>, i: int, n: nat) -> Option<Seq<u8>>
    decreases n,
{
    if i < 0 || i > s.len() {
        None
    } else {
        let e = spec_find_byte(s, i, 58);
        if n == 0 {
            Some(s.subrange(i, e))
        } else if e >= s.len() {
            None
        } else {
            spec_nth_field(s, e + 1, (n - 1) as nat)
        }
    }
}

fn nth_field(s: &[u8], i: usize, n: usize) -> (r: Option<Vec<u8>>)
    requires
        i <= s@.len(),
    ensures
        opt_bytes(r) == spec_nth_field(s@, i as int, n as nat),
    decreases n,
{
    let e = find_byte(s, i, 58);
    if n == 0 {
        Some(vstd::slice::slice_to_vec(vstd::slice::slice_subrange(s, i, e)))
    } else if e >= s.len() {
        None
    } else {
        nth_field(s, e + 1, n - 1)
    }
}

/// The first line at or after `i` whose text begins with `label`;
/// lines are separated by line feeds. `None` if no line matches.
pub open spec fn spec_find_labeled_line(s: Seq<u8>, i: int, label: Seq<u8>) -> Option<Seq<u8>>
    decreases s.len() + 1 - i,
    via spec_find_labeled_line_dec
{
    if i < 0 || i >= s.len() {
        None
    } else {
        let e = spec_find_byte(s, i, 10);
        let line = s.subrange(i, e);
        if spec_starts_with(line, label) {
            Some(line)
        } else {
            spec_find_labeled_line(s, e + 1, label)
        }
    }
}

#[via_fn]
proof fn spec_find_labeled_line_dec(s: Seq<u8>, i: int, label: Seq<u8>) {
    if 0 <= i && i < s.len() {
        lemma_find_byte_bounds(s, i, 10);
    }
}

fn find_labeled_line(s: &[u8], i: usize, label: &[u8]) -> (r: Option<Vec<u8>>)
    requires
        i <= s@.len(),
    ensures
        opt_bytes(r) == spec_find_labeled_line(s@, i as int, label@),
    decreases s@.len() - i,
{
    if i >= s.len() {
        return None;
    }
    let e = find_byte(s, i, 10);
    let line = vstd::slice::slice_subrange(s, i, e);
    if starts_with(line, label) {
        Some(vstd::slice::slice_to_vec(line))
    } else if e >= s.len() {
        proof {
            assert(spec_find_labeled_line(s@, e + 1, label@) is None);
        }
        None
    } else {
        find_labeled_line(s, e + 1, label)
    }
}

/// How many lines at or after `i` begin with `label`.
pub open spec fn spec_count_labeled_lines(s: Seq<u8>, i: int, label: Seq<u8>) -> nat
    decreases s.len() + 1 - i,
    via spec_count_labeled_lines_dec
{
    if i < 0 || i >= s.len() {
        0
    } else {
        let e = spec_find_byte(s, i, 10);
        let line = s.subrange(i, e);
        (if spec_starts_with(line, label) {
            1nat
        } else {
            0nat
        }) + spec_count_labeled_lines(s, e + 1, label)
    }
}

#[via_fn]
proof fn spec_count_labeled_lines_dec(s: Seq<u8>, i: int, label: Seq<u8>) {
    if 0 <= i && i < s.len() {
        lemma_find_byte_bounds(s, i, 10);
    }
}

fn count_labeled_lines(s: &[u8], i: usize, label: &[u8]) -> (r: usize)
    requires
        i <= s@.len(),
    ensures
        r as nat == spec_count_labeled_lines(s@, i as int, label@),
        r <= s@.len() - i,
    decreases s@.len() - i,
{
    if i >= s.len() {
        return 0;
    }
    let e = find_byte(s, i, 10);
    let line = vstd::slice::slice_subrange(s, i, e);
    let inc: usize = if starts_with(line, label) {
        1
    } else {
        0
    };
    if e >= s.len() {
        proof {
            assert(spec_count_labeled_lines(s@, e + 1, label@) == 0);
        }
        inc
    } else {
        let rest = count_labeled_lines(s, e + 1, label);
        inc + rest
    }
}

/// The account name for a numeric owner id: scans the colon-delimited
/// account table line by line; a line whose third field equals `uid`
/// yields its first field; empty if no line matches.
pub open spec fn spec_user_for_uid(passwd: Seq<u8>, i: int, uid: Seq<u8>) -> Seq<u8>
    decreases passwd.len() + 1 - i,
    via spec_user_for_uid_dec
{
    if i < 0 || i >= passwd.len() {
        Seq::empty()
    } else {
        let e = spec_find_byte(passwd, i, 10);
        let line = passwd.subrange(i, e);
        if spec_nth_field(line, 0, 2) == Some(uid) {
            match spec_nth_field(line, 0, 0) {
                Some(f) => f,
                None => Seq::empty(),
            }
        } else {
            spec_user_for_uid(passwd, e + 1, uid)
        }
    }
}

#[via_fn]
proof fn spec_user_for_uid_dec(passwd: Seq<u8>, i: int, uid: Seq<u8>) {
    if 0 <= i && i < passwd.len() {
        lemma_find_byte_bounds(passwd, i, 10);
    }
}

/// Executable twin of [`spec_user_for_uid`], over the whole table.
pub fn user_for_uid(passwd: &[u8], uid: &[u8]) -> (r: Vec<u8>)
    ensures
        r@ == spec_user_for_uid(passwd@, 0, uid@),
{
    user_for_uid_from(passwd, 0, uid)
}

fn user_for_uid_from(passwd: &[u8], i: usize, uid: &[u8]) -> (r: Vec<u8>)
    requires
        i <= passwd@.len(),
    ensures
        r@ == spec_user_for_uid(passwd@, i as int, uid@),
    decreases passwd@.len() - i,
{
    if i >= passwd.len() {
        let r: Vec<u8> = Vec::new();
        proof {
            assert(r@ =~= spec_user_for_uid(passwd@, i as int, uid@));
        }
        return r;
    }
    let e = find_byte(passwd, i, 10);
    let line = vstd::slice::slice_subrange(passwd, i, e);
    let matched = match nth_field(line, 0, 2) {
        Some(f) => bytes_eq(f.as_slice(), uid),
        None => false,
    };
    if matched {
        match nth_field(line, 0, 0) {
            Some(f) => f,
            None => {
                let r: Vec<u8> = Vec::new();
                proof {
                    assert(r@ =~= Seq::<u8>::empty());
                }
                r
            },
        }
    } else if e >= passwd.len() {
        let r: Vec<u8> = Vec::new();
        proof {
            assert(spec_user_for_uid(passwd@, e + 1, uid@) =~= Seq::<u8>::empty());
            assert(r@ =~= Seq::<u8>::empty());
        }
        r
    } else {
        user_for_uid_from(passwd, e + 1, uid)
    }
}

fn empty_bytes() -> (r: Vec<u8>)
    ensures
        r@ == Seq::<u8>::empty(),
{
    let r: Vec<u8> = Vec::new();
    proof {
        assert(r@ =~= Seq::<u8>::empty());
    }
    r
}

/// Bytes of the record label `Name:`.
pub open spec fn label_name() -> Seq<u8> {
    seq![78u8, 97u8, 109u8, 101u8, 58u8]
}

pub(crate) fn label_name_x() -> (v: Vec<u8>)
    ensures
        v@ == label_name(),
{
    let mut v: Vec<u8> = Vec::new();
    v.push(78);
    v.push(97);
    v.push(109);
    v.push(101);
    v.push(58);
    proof {
        assert(v@ =~= label_name());
    }
    v
}

/// Bytes of the record label `PPid:`.
pub open spec fn label_ppid() -> Seq<u8> {
    seq![80u8, 80u8, 105u8, 100u8, 58u8]
}

pub(crate) fn label_ppid_x() -> (v: Vec<u8>)
    ensures
        v@ == label_ppid(),
{
    let mut v: Vec<u8> = Vec::new();
    v.push(80);
    v.push(80);
    v.push(105);
    v.push(100);
    v.push(58);
    proof {
        assert(v@ =~= label_ppid());
    }
    v
}

/// Bytes of the record label `Uid:`.
pub open spec fn label_uid() -> Seq<u8> {
    seq![85u8, 105u8, 100u8, 58u8]
}

pub(crate) fn label_uid_x() -> (v: Vec<u8>)
    ensures
        v@ == label_uid(),
{
    let mut v: Vec<u8> = Vec::new();
    v.push(85);
    v.push(105);
    v.push(100);
    v.push(58);
    proof {
        assert(v@ =~= label_uid());
    }
    v
}

/// Bytes of the record label `VmRSS:`.
pub open spec fn label_vmrss() -> Seq<u8> {
    seq![86u8, 109u8, 82u8, 83u8, 83u8, 58u8]
}

pub(crate) fn label_vmrss_x() -> (v: Vec<u8>)
    ensures
        v@ == label_vmrss(),
{
    let mut v: Vec<u8> = Vec::new();
    v.push(86);
    v.push(109);
    v.push(82);
    v.push(83);
    v.push(83);
    v.push(58);
    proof {
        assert(v@ =~= label_vmrss());
    }
    v
}

/// Bytes of the counter label `MemTotal:`.
pub open spec fn label_memtotal() -> Seq<u8> {
    seq![77u8, 101u8, 109u8, 84u8, 111u8, 116u8, 97u8, 108u8, 58u8]
}

/// Builds the `MemTotal:` label for callers of [`meminfo_field`].
pub(crate) fn label_memtotal_x() -> (v: Vec<u8>)
    ensures
        v@ == label_memtotal(),
{
    let mut v: Vec<u8> = Vec::new();
    v.push(77);
    v.push(101);
    v.push(109);
    v.push(84);
    v.push(111);
    v.push(116);
    v.push(97);
    v.push(108);
    v.push(58);
    proof {
        assert(v@ =~= label_memtotal());
    }
    v
}

/// Bytes of the counter label `MemFree:`.
pub open spec fn label_memfree() -> Seq<u8> {
    seq![77u8, 101u8, 109u8, 70u8, 114u8, 101u8, 101u8, 58u8]
}

pub(crate) fn label_memfree_x() -> (v: Vec<u8>)
    ensures
        v@ == label_memfree(),
{
    let mut v: Vec<u8> = Vec::new();
    v.push(77);
    v.push(101);
    v.push(109);
    v.push(70);
    v.push(114);
    v.push(101);
    v.push(101);
    v.push(58);
    proof {
        assert(v@ =~= label_memfree());
    }
    v
}

/// Bytes of the counter label `Buffers:`.
pub open spec fn label_buffers() -> Seq<u8> {
    seq![66u8, 117u8, 102u8, 102u8, 101u8, 114u8, 115u8, 58u8]
}

pub(crate) fn label_buffers_x() -> (v: Vec<u8>)
    ensures
        v@ == label_buffers(),
{
    let mut v: Vec<u8> = Vec::new();
    v.push(66);
    v.push(117);
    v.push(102);
    v.push(102);
    v.push(101);
    v.push(114);
    v.push(115);
    v.push(58);
    proof {
        assert(v@ =~= label_buffers());
    }
    v
}

/// Bytes of the counter label `Cached:`.
pub open spec fn label_cached() -> Seq<u8> {
    seq![67u8, 97u8, 99u8, 104u8, 101u8, 100u8, 58u8]
}

pub(crate) fn label_cached_x() -> (v: Vec<u8>)
    ensures
        v@ == label_cached(),
{
    let mut v: Vec<u8> = Vec::new();
    v.push(67);
    v.push(97);
    v.push(99);
    v.push(104);
    v.push(101);
    v.push(100);
    v.push(58);
    proof {
        assert(v@ =~= label_cached());
    }
    v
}

/// Bytes of the processor-record label `processor`.
pub open spec fn label_processor() -> Seq<u8> {
    seq![112u8, 114u8, 111u8, 99u8, 101u8, 115u8, 115u8, 111u8, 114u8]
}

pub(crate) fn label_processor_x() -> (v: Vec<u8>)
    ensures
        v@ == label_processor(),
{
    let mut v: Vec<u8> = Vec::new();
    v.push(112);
    v.push(114);
    v.push(111);
    v.push(99);
    v.push(101);
    v.push(115);
    v.push(115);
    v.push(111);
    v.push(114);
    proof {
        assert(v@ =~= label_processor());
    }
    v
}

/// The value token of the first line that begins with `label`: that
/// line's last whitespace token (the label itself if the line carries
/// nothing more); empty if no line matches.
pub open spec fn spec_status_value(status: Seq<u8>, label: Seq<u8>) -> Seq<u8> {
    match spec_find_labeled_line(status, 0, label) {
        Some(line) => match spec_last_token(line) {
            Some(t) => t,
            None => Seq::empty(),
        },
        None => Seq::empty(),
    }
}

fn status_value(status: &[u8], label: &[u8]) -> (r: Vec<u8>)
    ensures
        r@ == spec_status_value(status@, label@),
{
    match find_labeled_line(status, 0, label) {
        Some(line) => match last_token(line.as_slice()) {
            Some(t) => t,
            None => empty_bytes(),
        },
        None => empty_bytes(),
    }
}

/// The process name from a status record: the `Name:` line's value token.
pub open spec fn spec_status_name(status: Seq<u8>) -> Seq<u8> {
    spec_status_value(status, label_name())
}

pub fn status_name(status: &[u8]) -> (r: Vec<u8>)
    ensures
        r@ == spec_status_name(status@),
{
    let label = label_name_x();
    status_value(status, label.as_slice())
}

/// The parent pid from a status record: the `PPid:` line's value token
/// parsed as decimal; 0 if the line is missing or the token does not
/// parse.
pub open spec fn spec_status_ppid(status: Seq<u8>) -> u32 {
    match spec_parse_u32(spec_status_value(status, label_ppid())) {
        Some(v) => v,
        None => 0,
    }
}

pub fn status_ppid(status: &[u8]) -> (r: u32)
    ensures
        r == spec_status_ppid(status@),
{
    let label = label_ppid_x();
    let v = status_value(status, label.as_slice());
    match parse_u32(v.as_slice()) {
        Some(v) => v,
        None => 0,
    }
}

/// The owner id token from a status record: the `Uid:` line's value
/// token, kept as text (the account table is scanned textually).
pub open spec fn spec_status_uid(status: Seq<u8>) -> Seq<u8> {
    spec_status_value(status, label_uid())
}

pub fn status_uid(status: &[u8]) -> (r: Vec<u8>)
    ensures
        r@ == spec_status_uid(status@),
{
    let label = label_uid_x();
    status_value(status, label.as_slice())
}

/// Resident-set size in kB from a status record: the second whitespace
/// token of the `VmRSS:` line, parsed as decimal; 0 if the line or the
/// token is missing or the token is not a numeral.
pub open spec fn spec_status_rss(status: Seq<u8>) -> u64 {
    match spec_find_labeled_line(status, 0, label_vmrss()) {
        Some(line) => match spec_nth_token(line, 1) {
            Some(t) => match spec_parse_u64(t) {
                Some(v) => v,
                None => 0,
            },
            None => 0,
        },
        None => 0,
    }
}

pub fn status_rss(status: &[u8]) -> (r: u64)
    ensures
        r == spec_status_rss(status@),
{
    let label = label_vmrss_x();
    match find_labeled_line(status, 0, label.as_slice()) {
        Some(line) => match nth_token(line.as_slice(), 1) {
            Some(t) => match parse_u64(t.as_slice()) {
                Some(v) => v,
                None => 0,
            },
            None => 0,
        },
        None => 0,
    }
}

/// Value in kB of the first counter line beginning with `label`: its
/// second whitespace token, parsed as decimal. A missing line or token
/// counts as 0; a malformed token is a parse error (`None`).
pub open spec fn spec_meminfo_field(meminfo: Seq<u8>, label: Seq<u8>) -> Option<u64> {
    match spec_find_labeled_line(meminfo, 0, label) {
        Some(line) => match spec_nth_token(line, 1) {
            Some(t) => spec_parse_u64(t),
            None => Some(0),
        },
        None => Some(0),
    }
}

pub fn meminfo_field(meminfo: &[u8], label: &[u8]) -> (r: Option<u64>)
    ensures
        r == spec_meminfo_field(meminfo@, label@),
{
    match find_labeled_line(meminfo, 0, label) {
        Some(line) => match nth_token(line.as_slice(), 1) {
            Some(t) => parse_u64(t.as_slice()),
            None => Some(0),
        },
        None => Some(0),
    }
}

/// The `n`-th whitespace token of a per-process stat record, parsed as
/// decimal. A missing token counts as 0; a malformed token is a parse
/// error (`None`).
pub open spec fn spec_stat_field(stat: Seq<u8>, n: nat) -> Option<u64> {
    match spec_nth_token(stat, n) {
        Some(t) => spec_parse_u64(t),
        None => Some(0),
    }
}

pub fn stat_field(stat: &[u8], n: usize) -> (r: Option<u64>)
    ensures
        r == spec_stat_field(stat@, n as nat),
{
    match nth_token(stat, n) {
        Some(t) => parse_u64(t.as_slice()),
        None => Some(0),
    }
}

/// Fractional part of an uptime token in centiseconds: the first two
/// digits after the dot at `dot` (one digit counts as tens, further
/// digits are ignored); 0 if there is no dot or no digits follow it;
/// `None` if a non-digit stands in the read positions.
pub open spec fn spec_uptime_frac(t: Seq<u8>, dot: int) -> Option<u64> {
    if dot >= t.len() {
        Some(0)
    } else {
        let fp = t.subrange(dot + 1, t.len() as int);
        if fp.len() == 0 {
            Some(0)
        } else if fp.len() == 1 {
            if is_digit(fp[0]) {
                Some((10 * (fp[0] - 48)) as u64)
            } else {
                None
            }
        } else if is_digit(fp[0]) && is_digit(fp[1]) {
            Some((10 * (fp[0] - 48) + (fp[1] - 48)) as u64)
        } else {
            None
        }
    }
}

/// System uptime in centiseconds: the record's first whitespace token,
/// read as `A` or `A.B` with `A` a decimal numeral; the value is
/// `A*100` plus the first two fractional digits. `None` if the token is
/// missing or malformed or the value does not fit in a `u64`.
pub open spec fn spec_uptime_centis(uptime: Seq<u8>) -> Option<u64> {
    match spec_nth_token(uptime, 0) {
        Some(t) => {
            let dot = spec_find_byte(t, 0, 46);
            match spec_parse_u64(t.subrange(0, dot)) {
                Some(ip) => match spec_uptime_frac(t, dot) {
                    Some(f) => if ip <= (u64::MAX - 99) / 100 {
                        Some((100 * ip + f) as u64)
                    } else {
                        None
                    },
                    None => None,
                },
                None => None,
            }
        },
        None => None,
    }
}

pub fn uptime_centis(uptime: &[u8]) -> (r: Option<u64>)
    ensures
        r == spec_uptime_centis(uptime@),
{
    match nth_token(uptime, 0) {
        Some(t) => {
            let ts = t.as_slice();
            let dot = find_byte(ts, 0, 46);
            match parse_u64(vstd::slice::slice_subrange(ts, 0, dot)) {
                Some(ip) => {
                    let f = match uptime_frac(ts, dot) {
                        Some(f) => f,
                        None => {
                            return None;
                        },
                    };
                    if ip <= (u64::MAX - 99) / 100 {
                        Some(100 * ip + f)
                    } else {
                        None
                    }
                },
                None => None,
            }
        },
        None => None,
    }
}

fn uptime_frac(t: &[u8], dot: usize) -> (r: Option<u64>)
    requires
        dot <= t@.len(),
    ensures
        r == spec_uptime_frac(t@, dot as int),
{
    if dot >= t.len() {
        Some(0)
    } else {
        let fp = vstd::slice::slice_subrange(t, dot + 1, t.len());
        if fp.len() == 0 {
            Some(0)
        } else if fp.len() == 1 {
            if is_digit_x(fp[0]) {
                Some(10 * ((fp[0] - 48) as u64))
            } else {
                None
            }
        } else if is_digit_x(fp[0]) && is_digit_x(fp[1]) {
            Some(10 * ((fp[0] - 48) as u64) + ((fp[1] - 48) as u64))
        } else {
            None
        }
    }
}

/// Number of logical processors reported by the processor-info record:
/// its lines beginning with `processor`.
pub open spec fn spec_cpu_count(cpuinfo: Seq<u8>) -> nat {
    spec_count_labeled_lines(cpuinfo, 0, label_processor())
}

pub fn cpu_count(cpuinfo: &[u8]) -> (r: usize)
    ensures
        r as nat == spec_cpu_count(cpuinfo@),
{
    let label = label_processor_x();
    count_labeled_lines(cpuinfo, 0, label.as_slice())
}

/// Whether a process-listing entry name denotes a pid: it starts with a
/// decimal digit.
pub open spec fn spec_is_pid_entry(name: Seq<u8>) -> bool {
    name.len() > 0 && is_digit(name[0])
}

pub fn is_pid_entry(name: &[u8]) -> (r: bool)
    ensures
        r == spec_is_pid_entry(name@),
{
    name.len() > 0 && is_digit_x(name[0])
}

} // verus!

