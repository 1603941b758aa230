//! Static extraction of a script's declared metadata.
//!
//! A script declares its metadata in a block comment that opens with `/**`
//! and closes with `**/`; the block holds a flat object literal
//! `{ "key": value, ... }` whose values are quoted strings (no escape
//! sequences), integers of at most nine digits, or the words `true` and
//! `false`. The recognised keys are `name` (required, non-empty string),
//! `description`, `author`, `icon` and `category` (optional strings),
//! `bias` (optional integer ordering bias) and `preview` (optional boolean:
//! whether the script implements the preview entry point besides the main
//! transform). Unknown keys are allowed and ignored; a repeated key keeps
//! the later value. Extraction never evaluates script code: it only reads
//! the first such block.
//!
//! All text is handled as raw UTF-8 bytes.

use vstd::prelude::*;

verus! {

pub const B_TAB: u8 = 9;
pub const B_LF: u8 = 10;
pub const B_CR: u8 = 13;
pub const B_SPACE: u8 = 32;
pub const B_QUOTE: u8 = 34;
pub const B_STAR: u8 = 42;
pub const B_COMMA: u8 = 44;
pub const B_MINUS: u8 = 45;
pub const B_SLASH: u8 = 47;
pub const B_COLON: u8 = 58;
pub const B_LBRACE: u8 = 123;
pub const B_RBRACE: u8 = 125;

/// The ways metadata extraction can fail; each failure concerns one script
/// only and is always recoverable by the caller.
#[derive(Clone, Copy, Debug, PartialEq, Eq, Structural)]
pub enum ParseError {
    /// The source holds no `/** ... **/` block.
    MissingBlock,
    /// The block decodes, but the required `name` field is absent or empty.
    MissingName,
    /// The block cannot be structurally decoded.
    Malformed,
}

/// Mathematical model of one script's metadata.
pub struct MetaSpec {
    pub name: Seq<u8>,
    pub description: Option<Seq<u8>>,
    pub author: Option<Seq<u8>>,
    pub icon: Option<Seq<u8>>,
    pub category: Option<Seq<u8>>,
    pub bias: int,
    pub has_preview: bool,
}

/// Model of the fields gathered while walking the block, before the
/// required `name` has been checked.
pub struct MetaAcc {
    pub name: Option<Seq<u8>>,
    pub description: Option<Seq<u8>>,
    pub author: Option<Seq<u8>>,
    pub icon: Option<Seq<u8>>,
    pub category: Option<Seq<u8>>,
    pub bias: int,
    pub has_preview: bool,
}

/// Model of one value of the object literal.
pub enum JsonVal {
    Str(Seq<u8>),
    Int(int),
    Bool(bool),
}

pub open spec fn is_ws(b: u8) -> bool {
    b == B_SPACE || b == B_TAB || b == B_LF || b == B_CR
}

pub open spec fn is_digit(b: u8) -> bool {
    48 <= b <= 57
}

/// First position at or after `i` that does not hold whitespace.
pub open spec fn spec_skip_ws(s: Seq<u8>, i: int) -> int
    decreases s.len() - i,
{
    if 0 <= i < s.len() && is_ws(s[i]) {
        spec_skip_ws(s, i + 1)
    } else {
        i
    }
}

/// Position just after the first `/**` at or after `i`, if any.
pub open spec fn spec_find_open(s: Seq<u8>, i: int) -> Option<int>
    decreases s.len() - i,
{
    if i < 0 || i + 3 > s.len() {
        None
    } else if s[i] == B_SLASH && s[i + 1] == B_STAR && s[i + 2] == B_STAR {
        Some(i + 3)
    } else {
        spec_find_open(s, i + 1)
    }
}

/// Position of the first `**/` at or after `i`, if any.
pub open spec fn spec_find_close(s: Seq<u8>, i: int) -> Option<int>
    decreases s.len() - i,
{
    if i < 0 || i + 3 > s.len() {
        None
    } else if s[i] == B_STAR && s[i + 1] == B_STAR && s[i + 2] == B_SLASH {
        Some(i)
    } else {
        spec_find_close(s, i + 1)
    }
}

/// The text between the first `/**` and the first `**/` after it, if both
/// delimiters are present.
pub open spec fn spec_block_content(s: Seq<u8>) -> Option<Seq<u8>> {
    match spec_find_open(s, 0) {
        None => None,
        Some(c0) => match spec_find_close(s, c0) {
            None => None,
            Some(c1) => Some(s.subrange(c0, c1)),
        },
    }
}

/// Position of the first `"` at or after `i`, if any.
pub open spec fn spec_find_quote(s: Seq<u8>, i: int) -> Option<int>
    decreases s.len() - i,
{
    if !(0 <= i < s.len()) {
        None
    } else if s[i] == B_QUOTE {
        Some(i)
    } else {
        spec_find_quote(s, i + 1)
    }
}

/// First position at or after `i` that does not hold a digit.
pub open spec fn spec_digits_end(s: Seq<u8>, i: int) -> int
    decreases s.len() - i,
{
    if 0 <= i < s.len() && is_digit(s[i]) {
        spec_digits_end(s, i + 1)
    } else {
        i
    }
}

pub proof fn lemma_digits_end(s: Seq<u8>, i: int)
    requires
        0 <= i <= s.len(),
    ensures
        i <= spec_digits_end(s, i) <= s.len(),
    decreases s.len() - i,
{
    if i < s.len() && is_digit(s[i]) {
        lemma_digits_end(s, i + 1);
    }
}

/// Decimal value of the digits in `s[i .. end]`, folded onto `acc`.
pub open spec fn spec_digits_value(s: Seq<u8>, i: int, end: int, acc: int) -> int
    decreases end - i,
{
    if i < end && 0 <= i < s.len() {
        spec_digits_value(s, i + 1, end, acc * 10 + (s[i] - 48))
    } else {
        acc
    }
}

/// One value at position `i` (not preceded by whitespace): a quoted string
/// without escapes, an integer of at most nine digits, or a boolean word.
/// Returns the value and the position just after it.
pub open spec fn spec_parse_value(s: Seq<u8>, i: int) -> Option<(JsonVal, int)> {
    if !(0 <= i < s.len()) {
        None
    } else if s[i] == B_QUOTE {
        match spec_find_quote(s, i + 1) {
            None => None,
            Some(j) => Some((JsonVal::Str(s.subrange(i + 1, j)), j + 1)),
        }
    } else if s[i] == B_MINUS || is_digit(s[i]) {
        let d0 = if s[i] == B_MINUS { i + 1 } else { i };
        let e = spec_digits_end(s, d0);
        if e == d0 || e - d0 > 9 {
            None
        } else {
            let v = spec_digits_value(s, d0, e, 0);
            Some((JsonVal::Int(if s[i] == B_MINUS { -v } else { v }), e))
        }
    } else if i + 4 <= s.len() && s[i] == 116 && s[i + 1] == 114 && s[i + 2] == 117 && s[i + 3]
        == 101 {
        Some((JsonVal::Bool(true), i + 4))
    } else if i + 5 <= s.len() && s[i] == 102 && s[i + 1] == 97 && s[i + 2] == 108 && s[i + 3]
        == 115 && s[i + 4] == 101 {
        Some((JsonVal::Bool(false), i + 5))
    } else {
        None
    }
}

pub open spec fn key_name() -> Seq<u8> {
    seq![110u8, 97u8, 109u8, 101u8]
}

pub open spec fn key_description() -> Seq<u8> {
    seq![100u8, 101u8, 115u8, 99u8, 114u8, 105u8, 112u8, 116u8, 105u8, 111u8, 110u8]
}

pub open spec fn key_author() -> Seq<u8> {
    seq![97u8, 117u8, 116u8, 104u8, 111u8, 114u8]
}

pub open spec fn key_icon() -> Seq<u8> {
    seq![105u8, 99u8, 111u8, 110u8]
}

pub open spec fn key_category() -> Seq<u8> {
    seq![99u8, 97u8, 116u8, 101u8, 103u8, 111u8, 114u8, 121u8]
}

pub open spec fn key_bias() -> Seq<u8> {
    seq![98u8, 105u8, 97u8, 115u8]
}

pub open spec fn key_preview() -> Seq<u8> {
    seq![112u8, 114u8, 101u8, 118u8, 105u8, 101u8, 119u8]
}

/// Record `key: v` in `acc`. A known key demands its declared value type;
/// an unknown key is ignored; a repeated key keeps the later value.
pub open spec fn spec_apply_field(acc: MetaAcc, key: Seq<u8>, v: JsonVal) -> Option<MetaAcc> {
    if key == key_name() {
        match v {
            JsonVal::Str(t) => Some(MetaAcc { name: Some(t), ..acc }),
            _ => None,
        }
    } else if key == key_description() {
        match v {
            JsonVal::Str(t) => Some(MetaAcc { description: Some(t), ..acc }),
            _ => None,
        }
    } else if key == key_author() {
        match v {
            JsonVal::Str(t) => Some(MetaAcc { author: Some(t), ..acc }),
            _ => None,
        }
    } else if key == key_icon() {
        match v {
            JsonVal::Str(t) => Some(MetaAcc { icon: Some(t), ..acc }),
            _ => None,
        }
    } else if key == key_category() {
        match v {
            JsonVal::Str(t) => Some(MetaAcc { category: Some(t), ..acc }),
            _ => None,
        }
    } else if key == key_bias() {
        match v {
            JsonVal::Int(n) => Some(MetaAcc { bias: n, ..acc }),
            _ => None,
        }
    } else if key == key_preview() {
        match v {
            JsonVal::Bool(b) => Some(MetaAcc { has_preview: b, ..acc }),
            _ => None,
        }
    } else {
        Some(acc)
    }
}

/// One `"key": value` pair starting exactly at `a`. Returns the key, the
/// value and the position just after the value.
pub open spec fn spec_parse_pair(s: Seq<u8>, a: int) -> Option<(Seq<u8>, JsonVal, int)> {
    if !(0 <= a < s.len() && s[a] == B_QUOTE) {
        None
    } else {
        match spec_find_quote(s, a + 1) {
            None => None,
            Some(q) => {
                let b = spec_skip_ws(s, q + 1);
                if !(b < s.len() && s[b] == B_COLON) {
                    None
                } else {
                    let c = spec_skip_ws(s, b + 1);
                    match spec_parse_value(s, c) {
                        None => None,
                        Some((v, j)) => Some((s.subrange(a + 1, q), v, j)),
                    }
                }
            },
        }
    }
}

/// The pairs of the object, entered just after `{` or just after a `,`.
/// `allow_close` is true only in the first position, so a trailing comma is
/// refused. Returns the folded fields and the position just after `}`.
pub open spec fn spec_parse_pairs(s: Seq<u8>, i: int, acc: MetaAcc, allow_close: bool) -> Option<
    (MetaAcc, int),
>
    decreases s.len() - i,
{
    let a = spec_skip_ws(s, i);
    if !(0 <= i && i <= a && a < s.len()) {
        None
    } else if allow_close && s[a] == B_RBRACE {
        Some((acc, a + 1))
    } else {
        match spec_parse_pair(s, a) {
            None => None,
            Some((key, v, j)) => match spec_apply_field(acc, key, v) {
                None => None,
                Some(acc2) => {
                    let b = spec_skip_ws(s, j);
                    if !(a < j && j <= b && b < s.len()) {
                        None
                    } else if s[b] == B_RBRACE {
                        Some((acc2, b + 1))
                    } else if s[b] == B_COMMA {
                        spec_parse_pairs(s, b + 1, acc2, false)
                    } else {
                        None
                    }
                },
            },
        }
    }
}

pub open spec fn empty_acc() -> MetaAcc {
    MetaAcc {
        name: None,
        description: None,
        author: None,
        icon: None,
        category: None,
        bias: 0,
        has_preview: false,
    }
}

/// The whole block content: whitespace, one object, whitespace, end.
pub open spec fn spec_parse_object(s: Seq<u8>) -> Option<MetaAcc> {
    let a = spec_skip_ws(s, 0);
    if !(0 <= a && a < s.len() && s[a] == B_LBRACE) {
        None
    } else {
        match spec_parse_pairs(s, a + 1, empty_acc(), true) {
            None => None,
            Some((acc, end)) => {
                if spec_skip_ws(s, end) == s.len() {
                    Some(acc)
                } else {
                    None
                }
            },
        }
    }
}

/// What metadata extraction returns on any source text.
pub open spec fn spec_parse(s: Seq<u8>) -> Result<MetaSpec, ParseError> {
    match spec_block_content(s) {
        None => Err(ParseError::MissingBlock),
        Some(content) => match spec_parse_object(content) {
            None => Err(ParseError::Malformed),
            Some(acc) => match acc.name {
                None => Err(ParseError::MissingName),
                Some(n) => if n.len() == 0 {
                    Err(ParseError::MissingName)
                } else {
                    Ok(
                        MetaSpec {
                            name: n,
                            description: acc.description,
                            author: acc.author,
                            icon: acc.icon,
                            category: acc.category,
                            bias: acc.bias,
                            has_preview: acc.has_preview,
                        },
                    )
                },
            },
        },
    }
}

/// Ten to the power of `m`, written out for the small exponents the
/// parser meets.
pub open spec fn ten_to(m: int) -> int {
    if m <= 0 {
        1
    } else if m == 1 {
        10
    } else if m == 2 {
        100
    } else if m == 3 {
        1000
    } else if m == 4 {
        10000
    } else if m == 5 {
        100000
    } else if m == 6 {
        1000000
    } else if m == 7 {
        10000000
    } else if m == 8 {
        100000000
    } else {
        1000000000
    }
}

fn byte_is_ws(b: u8) -> (r: bool)
    ensures
        r == is_ws(b),
{
    b == B_SPACE || b == B_TAB || b == B_LF || b == B_CR
}

fn skip_ws(s: &Vec<u8>, i: usize) -> (r: usize)
    requires
        i <= s@.len(),
    ensures
        r as int == spec_skip_ws(s@, i as int),
        i <= r <= s@.len(),
{
    let mut j: usize = i;
    while j < s.len() && byte_is_ws(s[j])
        invariant
            i <= j <= s@.len(),
            spec_skip_ws(s@, i as int) == spec_skip_ws(s@, j as int),
        decreases s@.len() - j,
    {
        j = j + 1;
    }
    j
}

fn find_open(s: &Vec<u8>, i: usize) -> (r: Option<usize>)
    requires
        i <= s@.len(),
    ensures
        (r is Some) == (spec_find_open(s@, i as int) is Some),
        r is Some ==> r->Some_0 as int == spec_find_open(s@, i as int)->Some_0
            && i + 3 <= r->Some_0 <= s@.len(),
{
    if s.len() < 3 || i > s.len() - 3 {
        return None;
    }
    let mut j: usize = i;
    while j <= s.len() - 3
        invariant
            s@.len() >= 3,
            i <= j <= s@.len(),
            spec_find_open(s@, i as int) == spec_find_open(s@, j as int),
        decreases s@.len() - j,
    {
        if s[j] == B_SLASH && s[j + 1] == B_STAR && s[j + 2] == B_STAR {
            return Some(j + 3);
        }
        j = j + 1;
    }
    None
}

fn find_close(s: &Vec<u8>, i: usize) -> (r: Option<usize>)
    requires
        i <= s@.len(),
    ensures
        (r is Some) == (spec_find_close(s@, i as int) is Some),
        r is Some ==> r->Some_0 as int == spec_find_close(s@, i as int)->Some_0
            && i <= r->Some_0 && r->Some_0 + 3 <= s@.len(),
{
    if s.len() < 3 || i > s.len() - 3 {
        return None;
    }
    let mut j: usize = i;
    while j <= s.len() - 3
        invariant
            s@.len() >= 3,
            i <= j <= s@.len(),
            spec_find_close(s@, i as int) == spec_find_close(s@, j as int),
        decreases s@.len() - j,
    {
        if s[j] == B_STAR && s[j + 1] == B_STAR && s[j + 2] == B_SLASH {
            return Some(j);
        }
        j = j + 1;
    }
    None
}

fn find_quote(s: &Vec<u8>, i: usize) -> (r: Option<usize>)
    requires
        i <= s@.len(),
    ensures
        (r is Some) == (spec_find_quote(s@, i as int) is Some),
        r is Some ==> r->Some_0 as int == spec_find_quote(s@, i as int)->Some_0
            && i <= r->Some_0 < s@.len(),
{
    let mut j: usize = i;
    while j < s.len()
        invariant
            i <= j <= s@.len(),
            spec_find_quote(s@, i as int) == spec_find_quote(s@, j as int),
        decreases s@.len() - j,
    {
        if s[j] == B_QUOTE {
            return Some(j);
        }
        j = j + 1;
    }
    None
}

/// A fresh copy of `s[a .. b]`.
fn subvec(s: &Vec<u8>, a: usize, b: usize) -> (r: Vec<u8>)
    requires
        a <= b <= s@.len(),
    ensures
        r@ == s@.subrange(a as int, b as int),
{
    let mut r: Vec<u8> = Vec::new();
    let mut j: usize = a;
    while j < b
        invariant
            a <= j <= b <= s@.len(),
            r@ == s@.subrange(a as int, j as int),
        decreases b - j,
    {
        r.push(s[j]);
        proof {
            assert(r@ =~= s@.subrange(a as int, j + 1 as int));
        }
        j = j + 1;
    }
    r
}

fn digits_end(s: &Vec<u8>, i: usize) -> (r: usize)
    requires
        i <= s@.len(),
    ensures
        r as int == spec_digits_end(s@, i as int),
        i <= r <= s@.len(),
{
    let mut j: usize = i;
    while j < s.len() && 48 <= s[j] && s[j] <= 57
        invariant
            i <= j <= s@.len(),
            spec_digits_end(s@, i as int) == spec_digits_end(s@, j as int),
        decreases s@.len() - j,
    {
        j = j + 1;
    }
    j
}

proof fn lemma_digits_all(s: Seq<u8>, i: int, k: int)
    requires
        0 <= i <= k < spec_digits_end(s, i),
        i <= s.len(),
    ensures
        k < s.len() && is_digit(s[k]),
    decreases k - i,
{
    lemma_digits_end(s, i);
    if i < k {
        lemma_digits_end(s, i + 1);
        lemma_digits_all(s, i + 1, k);
    }
}

/// One executable value of the object literal.
pub enum JsonValue {
    Str(Vec<u8>),
    Int(i64),
    Bool(bool),
}

impl View for JsonValue {
    type V = JsonVal;

    open spec fn view(&self) -> JsonVal {
        match self {
            JsonValue::Str(v) => JsonVal::Str(v@),
            JsonValue::Int(n) => JsonVal::Int(*n as int),
            JsonValue::Bool(b) => JsonVal::Bool(*b),
        }
    }
}

fn parse_digits(s: &Vec<u8>, d0: usize, e: usize) -> (r: i64)
    requires
        d0 <= e <= s@.len(),
        e as int == spec_digits_end(s@, d0 as int),
        e - d0 <= 9,
    ensures
        r as int == spec_digits_value(s@, d0 as int, e as int, 0),
        0 <= r < 1000000000,
{
    let mut acc: i64 = 0;
    let mut k: usize = d0;
    while k < e
        invariant
            d0 <= k <= e <= s@.len(),
            e - d0 <= 9,
            e as int == spec_digits_end(s@, d0 as int),
            spec_digits_value(s@, d0 as int, e as int, 0) == spec_digits_value(
                s@,
                k as int,
                e as int,
                acc as int,
            ),
            0 <= acc < ten_to(k - d0),
        decreases e - k,
    {
        proof {
            lemma_digits_all(s@, d0 as int, k as int);
            assert(ten_to(k - d0) <= 100000000);
        }
        acc = acc * 10 + ((s[k] - 48) as i64);
        k = k + 1;
    }
    acc
}

fn parse_value(s: &Vec<u8>, i: usize) -> (r: Option<(JsonValue, usize)>)
    requires
        i <= s@.len(),
    ensures
        (r is Some) == (spec_parse_value(s@, i as int) is Some),
        r is Some ==> r->Some_0.0@ == spec_parse_value(s@, i as int)->Some_0.0
            && r->Some_0.1 as int == spec_parse_value(s@, i as int)->Some_0.1
            && i < r->Some_0.1 <= s@.len(),
{
    if i >= s.len() {
        return None;
    }
    let b = s[i];
    if b == B_QUOTE {
        match find_quote(s, i + 1) {
            None => None,
            Some(q) => {
                let text = subvec(s, i + 1, q);
                Some((JsonValue::Str(text), q + 1))
            },
        }
    } else if b == B_MINUS || (48 <= b && b <= 57) {
        let d0: usize = if b == B_MINUS {
            i + 1
        } else {
            i
        };
        let e = digits_end(s, d0);
        if e == d0 || e - d0 > 9 {
            return None;
        }
        let v = parse_digits(s, d0, e);
        if b == B_MINUS {
            Some((JsonValue::Int(-v), e))
        } else {
            Some((JsonValue::Int(v), e))
        }
    } else if s.len() - i >= 4 && b == 116 && s[i + 1] == 114 && s[i + 2] == 117 && s[i + 3]
        == 101 {
        Some((JsonValue::Bool(true), i + 4))
    } else if s.len() - i >= 5 && b == 102 && s[i + 1] == 97 && s[i + 2] == 108 && s[i + 3] == 115
        && s[i + 4] == 101 {
        Some((JsonValue::Bool(false), i + 5))
    } else {
        None
    }
}

fn key_is_name(k: &Vec<u8>) -> (r: bool)
    ensures
        r == (k@ == key_name()),
{
    let r = k.len() == 4 && k[0] == 110 && k[1] == 97 && k[2] == 109 && k[3] == 101;
    proof {
        if r {
            assert(k@ =~= key_name());
        }
    }
    r
}

fn key_is_description(k: &Vec<u8>) -> (r: bool)
    ensures
        r == (k@ == key_description()),
{
    let r = k.len() == 11 && k[0] == 100 && k[1] == 101 && k[2] == 115 && k[3] == 99 && k[4]
        == 114 && k[5] == 105 && k[6] == 112 && k[7] == 116 && k[8] == 105 && k[9] == 111 && k[10]
        == 110;
    proof {
        if r {
            assert(k@ =~= key_description());
        }
    }
    r
}

fn key_is_author(k: &Vec<u8>) -> (r: bool)
    ensures
        r == (k@ == key_author()),
{
    let r = k.len() == 6 && k[0] == 97 && k[1] == 117 && k[2] == 116 && k[3] == 104 && k[4] == 111
        && k[5] == 114;
    proof {
        if r {
            assert(k@ =~= key_author());
        }
    }
    r
}

fn key_is_icon(k: &Vec<u8>) -> (r: bool)
    ensures
        r == (k@ == key_icon()),
{
    let r = k.len() == 4 && k[0] == 105 && k[1] == 99 && k[2] == 111 && k[3] == 110;
    proof {
        if r {
            assert(k@ =~= key_icon());
        }
    }
    r
}

fn key_is_category(k: &Vec<u8>) -> (r: bool)
    ensures
        r == (k@ == key_category()),
{
    let r = k.len() == 8 && k[0] == 99 && k[1] == 97 && k[2] == 116 && k[3] == 101 && k[4] == 103
        && k[5] == 111 && k[6] == 114 && k[7] == 121;
    proof {
        if r {
            assert(k@ =~= key_category());
        }
    }
    r
}

fn key_is_bias(k: &Vec<u8>) -> (r: bool)
    ensures
        r == (k@ == key_bias()),
{
    let r = k.len() == 4 && k[0] == 98 && k[1] == 105 && k[2] == 97 && k[3] == 115;
    proof {
        if r {
            assert(k@ =~= key_bias());
        }
    }
    r
}

fn key_is_preview(k: &Vec<u8>) -> (r: bool)
    ensures
        r == (k@ == key_preview()),
{
    let r = k.len() == 7 && k[0] == 112 && k[1] == 114 && k[2] == 101 && k[3] == 118 && k[4]
        == 105 && k[5] == 101 && k[6] == 119;
    proof {
        if r {
            assert(k@ =~= key_preview());
        }
    }
    r
}

pub open spec fn opt_bytes(o: Option<Vec<u8>>) -> Option<Seq<u8>> {
    match o {
        Some(v) => Some(v@),
        None => None,
    }
}

/// The fields gathered while walking the block.
pub struct MetaBuilder {
    pub name: Option<Vec<u8>>,
    pub description: Option<Vec<u8>>,
    pub author: Option<Vec<u8>>,
    pub icon: Option<Vec<u8>>,
    pub category: Option<Vec<u8>>,
    pub bias: i64,
    pub has_preview: bool,
}

impl View for MetaBuilder {
    type V = MetaAcc;

    open spec fn view(&self) -> MetaAcc {
        MetaAcc {
            name: opt_bytes(self.name),
            description: opt_bytes(self.description),
            author: opt_bytes(self.author),
            icon: opt_bytes(self.icon),
            category: opt_bytes(self.category),
            bias: self.bias as int,
            has_preview: self.has_preview,
        }
    }
}

impl MetaBuilder {
    fn empty() -> (r: MetaBuilder)
        ensures
            r@ == empty_acc(),
    {
        MetaBuilder {
            name: None,
            description: None,
            author: None,
            icon: None,
            category: None,
            bias: 0,
            has_preview: false,
        }
    }
}

fn apply_field(b: &mut MetaBuilder, key: &Vec<u8>, v: JsonValue) -> (r: bool)
    ensures
        match spec_apply_field(old(b)@, key@, v@) {
            None => r == false,
            Some(acc2) => r == true && final(b)@ == acc2,
        },
{
    if key_is_name(key) {
        match v {
            JsonValue::Str(t) => {
                b.name = Some(t);
                true
            },
            _ => false,
        }
    } else if key_is_description(key) {
        match v {
            JsonValue::Str(t) => {
                b.description = Some(t);
                true
            },
            _ => false,
        }
    } else if key_is_author(key) {
        match v {
            JsonValue::Str(t) => {
                b.author = Some(t);
                true
            },
            _ => false,
        }
    } else if key_is_icon(key) {
        match v {
            JsonValue::Str(t) => {
                b.icon = Some(t);
                true
            },
            _ => false,
        }
    } else if key_is_category(key) {
        match v {
            JsonValue::Str(t) => {
                b.category = Some(t);
                true
            },
            _ => false,
        }
    } else if key_is_bias(key) {
        match v {
            JsonValue::Int(n) => {
                b.bias = n;
                true
            },
            _ => false,
        }
    } else if key_is_preview(key) {
        match v {
            JsonValue::Bool(p) => {
                b.has_preview = p;
                true
            },
            _ => false,
        }
    } else {
        true
    }
}

fn parse_pairs(s: &Vec<u8>, start: usize, b: &mut MetaBuilder) -> (r: Option<usize>)
    requires
        start <= s@.len(),
    ensures
        match spec_parse_pairs(s@, start as int, old(b)@, true) {
            None => r is None,
            Some((acc, end)) => r is Some && final(b)@ == acc && r->Some_0 as int == end
                && r->Some_0 <= s@.len(),
        },
{
    let mut i: usize = start;
    let mut allow_close: bool = true;
    loop
        invariant
            start <= i <= s@.len(),
            spec_parse_pairs(s@, start as int, old(b)@, true) == spec_parse_pairs(
                s@,
                i as int,
                b@,
                allow_close,
            ),
        decreases s@.len() - i,
    {
        let a = skip_ws(s, i);
        if a >= s.len() {
            return None;
        }
        if allow_close && s[a] == B_RBRACE {
            return Some(a + 1);
        }
        if s[a] != B_QUOTE {
            return None;
        }
        let q = match find_quote(s, a + 1) {
            None => {
                return None;
            },
            Some(q) => q,
        };
        let key = subvec(s, a + 1, q);
        let bq = skip_ws(s, q + 1);
        if bq >= s.len() || s[bq] != B_COLON {
            return None;
        }
        let c = skip_ws(s, bq + 1);
        let (v, j) = match parse_value(s, c) {
            None => {
                return None;
            },
            Some(vj) => vj,
        };
        proof {
            assert(spec_parse_pair(s@, a as int) == Some((key@, v@, j as int)));
        }
        if !apply_field(b, &key, v) {
            return None;
        }
        let bb = skip_ws(s, j);
        if bb >= s.len() {
            return None;
        }
        if s[bb] == B_RBRACE {
            return Some(bb + 1);
        }
        if s[bb] != B_COMMA {
            return None;
        }
        i = bb + 1;
        allow_close = false;
    }
}

/// A script's declared metadata, parsed once and immutable thereafter.
#[derive(Debug)]
pub struct ScriptMetadata {
    /// Required display name, never empty.
    pub name: Vec<u8>,
    pub description: Option<Vec<u8>>,
    pub author: Option<Vec<u8>>,
    pub icon: Option<Vec<u8>>,
    /// Category or submenu the script is listed under.
    pub category: Option<Vec<u8>>,
    /// Ordering bias declared by the script, default 0.
    pub bias: i64,
    /// Whether the script declares the optional preview entry point.
    pub has_preview: bool,
}

impl View for ScriptMetadata {
    type V = MetaSpec;

    open spec fn view(&self) -> MetaSpec {
        MetaSpec {
            name: self.name@,
            description: opt_bytes(self.description),
            author: opt_bytes(self.author),
            icon: opt_bytes(self.icon),
            category: opt_bytes(self.category),
            bias: self.bias as int,
            has_preview: self.has_preview,
        }
    }
}

/// Locates the metadata block in `source` and decodes it, without
/// evaluating any script code.
pub fn parse(source: &Vec<u8>) -> (r: Result<ScriptMetadata, ParseError>)
    ensures
        match spec_parse(source@) {
            Ok(m) => r is Ok && r->Ok_0@ == m,
            Err(e) => r is Err && r->Err_0 == e,
        },
{
    let c0 = match find_open(source, 0) {
        None => {
            return Err(ParseError::MissingBlock);
        },
        Some(c0) => c0,
    };
    let c1 = match find_close(source, c0) {
        None => {
            return Err(ParseError::MissingBlock);
        },
        Some(c1) => c1,
    };
    let content = subvec(source, c0, c1);
    let a = skip_ws(&content, 0);
    if a >= content.len() {
        return Err(ParseError::Malformed);
    }
    if content[a] != B_LBRACE {
        return Err(ParseError::Malformed);
    }
    let mut builder = MetaBuilder::empty();
    let end = match parse_pairs(&content, a + 1, &mut builder) {
        None => {
            return Err(ParseError::Malformed);
        },
        Some(end) => end,
    };
    if skip_ws(&content, end) != content.len() {
        return Err(ParseError::Malformed);
    }
    match builder.name {
        None => Err(ParseError::MissingName),
        Some(n) => {
            if n.len() == 0 {
                Err(ParseError::MissingName)
            } else {
                Ok(
                    ScriptMetadata {
                        name: n,
                        description: builder.description,
                        author: builder.author,
                        icon: builder.icon,
                        category: builder.category,
                        bias: builder.bias,
                        has_preview: builder.has_preview,
                    },
                )
            }
        },
    }
}

} // verus!
