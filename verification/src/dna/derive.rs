//! Property paths for addressing nested DNA values.
//!
//! A [`PropertyPath`] is a dot-separated (and bracket-indexed) path such as
//! `"transform.position.x"` or `"vertices[3].normal"`. It reads and writes
//! individual leaf values inside a [`DnaValue`] tree without knowing the
//! full structure beforehand.
//!
//! Syntax:
//!
//! ```text
//! "field"                         top-level field
//! "field.subfield"                nested struct field
//! "array[0]"                      array element by index
//! "array[0].x"                    field of an array element
//! "bones[\"Bone\"].location.x"    bracket-quoted field name
//! "bones['Bone'].location.x"      single-quoted bracket field name
//! ```

use vstd::prelude::*;
use vstd::string::*;

use super::value::{DnaValue, ValueModel};
use crate::index_map::{entry_lookup, key_position, lemma_key_position, lemma_key_position_update};
use crate::text::{
    chars_of, decimal, is_digit, parse_usize, parse_usize_chars, push_decimal, string_from_chars,
    string_push, trim, trim_chars, lemma_trim_idempotent,
};

verus! {

/// One step of a path, as a mathematical value.
pub enum PathSeg {
    /// A named struct field.
    Field(Seq<char>),
    /// A numeric array index.
    Index(nat),
}

/// One step of a path.
#[derive(Debug, Clone, PartialEq, Eq, Hash)]
enum Segment {
    /// A named struct field.
    Field(String),
    /// A numeric array index.
    Index(usize),
}

spec fn seg_model(s: Segment) -> PathSeg {
    match s {
        Segment::Field(name) => PathSeg::Field(name@),
        Segment::Index(i) => PathSeg::Index(i as nat),
    }
}

/// A parsed property path that can be used to get / set values inside a
/// [`DnaValue`] tree.
#[derive(Debug, Clone, PartialEq, Eq, Hash)]
pub struct PropertyPath {
    segments: Vec<Segment>,
}

/// Errors that can occur when setting a value via a property path.
#[derive(Debug, Clone, PartialEq, Eq)]
pub enum PropertyPathError {
    /// A field name was not found in the struct.
    FieldNotFound(String),
    /// An array index was out of bounds.
    IndexOutOfBounds { index: usize, len: usize },
    /// The path tried to descend into a leaf / incompatible value.
    TypeMismatch(String),
    /// The path was empty.
    EmptyPath,
}

// ---------------------------------------------------------------------------
// The path grammar, as a character-by-character state machine.
// ---------------------------------------------------------------------------

/// The state of the path scanner between two characters.
pub struct ParseState {
    /// Segments completed so far.
    pub segs: Seq<PathSeg>,
    /// Characters of the segment being read.
    pub cur: Seq<char>,
    /// Inside `[...]`.
    pub in_bracket: bool,
    /// Inside a quoted name, opened by this quote character.
    pub quote: Option<char>,
    /// The previous character was a backslash inside quotes.
    pub escape: bool,
    /// The bracket being read holds a quoted name.
    pub quoted: bool,
}

pub open spec fn start_state() -> ParseState {
    ParseState { segs: Seq::empty(), cur: Seq::empty(), in_bracket: false, quote: None, escape: false, quoted: false }
}

/// Ends the segment being read: its trimmed text becomes a field, unless it
/// is empty.
pub open spec fn flush(st: ParseState) -> ParseState {
    let t = trim(st.cur);
    ParseState {
        segs: if t.len() > 0 { st.segs.push(PathSeg::Field(t)) } else { st.segs },
        cur: Seq::empty(),
        ..st
    }
}

/// A closing bracket: a quoted name is a field name (unless its trimmed
/// text is empty); unquoted text is an index if it parses as one, else a
/// field name unless it is empty.
pub open spec fn close_bracket(st: ParseState) -> ParseState {
    let t = trim(st.cur);
    let field = if t.len() > 0 { st.segs.push(PathSeg::Field(t)) } else { st.segs };
    ParseState {
        segs: if st.quoted {
            field
        } else {
            match parse_usize(t) {
                Some(i) => st.segs.push(PathSeg::Index(i)),
                None => field,
            }
        },
        cur: Seq::empty(),
        in_bracket: false,
        quoted: false,
        ..st
    }
}

pub open spec fn push_char(st: ParseState, c: char) -> ParseState {
    ParseState { cur: st.cur.push(c), ..st }
}

/// The scanner's reaction to one character.
pub open spec fn step(st: ParseState, c: char) -> ParseState {
    if st.escape {
        ParseState { escape: false, ..push_char(st, c) }
    } else if st.in_bracket && st.quote is Some {
        if c == '\\' {
            ParseState { escape: true, ..st }
        } else if c == st.quote->0 {
            ParseState { quote: None, ..st }
        } else {
            push_char(st, c)
        }
    } else if st.in_bracket && (c == '"' || c == '\'') {
        ParseState { quote: Some(c), quoted: true, ..st }
    } else if !st.in_bracket && c == '.' {
        flush(st)
    } else if !st.in_bracket && c == '[' {
        ParseState { in_bracket: true, ..flush(st) }
    } else if st.in_bracket && c == ']' {
        close_bracket(st)
    } else {
        push_char(st, c)
    }
}

/// The scanner's state after reading `s` from `st`.
pub open spec fn run_from(st: ParseState, s: Seq<char>) -> ParseState
    decreases s.len(),
{
    if s.len() == 0 {
        st
    } else {
        step(run_from(st, s.drop_last()), s.last())
    }
}

/// The segments of the path `s`. Parsing is lenient: empty segments are
/// skipped and whitespace around segments is trimmed.
pub open spec fn parse_spec(s: Seq<char>) -> Seq<PathSeg> {
    flush(run_from(start_state(), s)).segs
}

// ---------------------------------------------------------------------------
// The text of a path.
// ---------------------------------------------------------------------------

/// A field name that would break dot-path parsing: it holds `.`, `[`, `]`
/// or a space, or starts with an ASCII digit.
pub open spec fn needs_quote(name: Seq<char>) -> bool {
    ||| name.contains('.')
    ||| name.contains('[')
    ||| name.contains(']')
    ||| name.contains(' ')
    ||| (name.len() > 0 && is_digit(name[0]))
}

/// The text of one segment: `["name"]` for a name that needs quoting,
/// `.name` (or `name` first), `[i]` for an index.
pub open spec fn seg_text(seg: PathSeg, first: bool) -> Seq<char> {
    match seg {
        PathSeg::Field(name) => if needs_quote(name) {
            seq!['[', '"'] + name + seq!['"', ']']
        } else if first {
            name
        } else {
            seq!['.'] + name
        },
        PathSeg::Index(i) => seq!['['] + decimal(i) + seq![']'],
    }
}

/// The dot/bracket text of a path.
pub open spec fn path_text(segs: Seq<PathSeg>) -> Seq<char>
    decreases segs.len(),
{
    if segs.len() == 0 {
        Seq::empty()
    } else {
        path_text(segs.drop_last()) + seg_text(segs.last(), segs.len() == 1)
    }
}

// ---------------------------------------------------------------------------
// Reading and writing through a path.
// ---------------------------------------------------------------------------

/// The value reached from `v` by following `segs`.
pub open spec fn lookup(v: ValueModel, segs: Seq<PathSeg>) -> Option<ValueModel>
    decreases segs.len(),
{
    if segs.len() == 0 {
        Some(v)
    } else {
        match (segs[0], v) {
            (PathSeg::Field(name), ValueModel::Struct(e)) => match entry_lookup(e, name) {
                Some(c) => lookup(c, segs.drop_first()),
                None => None,
            },
            (PathSeg::Index(i), ValueModel::Array(a)) => if i < a.len() {
                lookup(a[i as int], segs.drop_first())
            } else {
                None
            },
            _ => None,
        }
    }
}

/// `v` with the value reached by following `segs` replaced by `w` (`v`
/// itself where the path leads nowhere).
pub open spec fn replace(v: ValueModel, segs: Seq<PathSeg>, w: ValueModel) -> ValueModel
    decreases segs.len(),
{
    if segs.len() == 0 {
        w
    } else {
        match (segs[0], v) {
            (PathSeg::Field(name), ValueModel::Struct(e)) => {
                let p = key_position(e, name);
                if p >= 0 {
                    ValueModel::Struct(e.update(p, (name, replace(e[p].1, segs.drop_first(), w))))
                } else {
                    v
                }
            },
            (PathSeg::Index(i), ValueModel::Array(a)) => if i < a.len() {
                ValueModel::Array(a.update(i as int, replace(a[i as int], segs.drop_first(), w)))
            } else {
                v
            },
            _ => v,
        }
    }
}

// ---------------------------------------------------------------------------
// The executable path.
// ---------------------------------------------------------------------------

spec fn segs_model(segs: Seq<Segment>) -> Seq<PathSeg> {
    segs.map_values(|s: Segment| seg_model(s))
}

spec fn state_of(
    segs: Seq<Segment>,
    cur: Seq<char>,
    in_bracket: bool,
    quote: Option<char>,
    escape: bool,
    quoted: bool,
) -> ParseState {
    ParseState { segs: segs_model(segs), cur, in_bracket, quote, escape, quoted }
}

impl PropertyPath {
    /// The path's segments.
    pub closed spec fn view(&self) -> Seq<PathSeg> {
        segs_model(self.segments@)
    }

    /// Ends the segment being read: its trimmed text becomes a field
    /// segment, unless it is empty; the buffer is emptied.
    fn flush_segment(buf: &mut Vec<char>, out: &mut Vec<Segment>)
        ensures
            final(buf)@ == Seq::<char>::empty(),
            segs_model(final(out)@) == flush(state_of(old(out)@, old(buf)@, false, None, false, false)).segs,
    {
        let trimmed = trim_chars(buf);
        if trimmed.len() > 0 {
            out.push(Segment::Field(string_from_chars(&trimmed)));
            assert(segs_model(out@) =~= segs_model(old(out)@).push(PathSeg::Field(trimmed@)));
        }
        *buf = Vec::new();
    }

    /// Parses a dot / bracket path string.
    ///
    /// Parsing is lenient: empty segments are skipped, and whitespace around
    /// segments is trimmed. Bracket notation holds numeric indices
    /// (`array[0]`) or quoted field names (`bones["Bone"]`, `bones['Bone']`,
    /// with `\` escaping the next character inside the quotes). A quoted
    /// name is a field name even when it reads as a number (`m["0"]`).
    pub fn parse(path: &str) -> (p: PropertyPath)
        ensures
            p.view() == parse_spec(path@),
    {
        let chars = chars_of(path);
        let mut segments: Vec<Segment> = Vec::new();
        let mut current: Vec<char> = Vec::new();
        let mut in_bracket = false;
        let mut in_quote: Option<char> = None;
        let mut escape_next = false;
        let mut quoted = false;
        let mut i: usize = 0;
        assert(segs_model(segments@) =~= Seq::<PathSeg>::empty());
        assert(chars@.take(0) =~= Seq::<char>::empty());
        while i < chars.len()
            invariant
                i <= chars.len(),
                chars@ == path@,
                state_of(segments@, current@, in_bracket, in_quote, escape_next, quoted) == run_from(
                    start_state(),
                    chars@.take(i as int),
                ),
            decreases chars.len() - i,
        {
            let ch = chars[i];
            let ghost before = state_of(segments@, current@, in_bracket, in_quote, escape_next, quoted);
            assert(chars@.take(i + 1).drop_last() =~= chars@.take(i as int));
            if escape_next {
                // The character after a backslash inside quotes is taken
                // verbatim.
                current.push(ch);
                escape_next = false;
            } else if in_bracket && in_quote.is_some() {
                let q = in_quote.unwrap();
                if ch == '\\' {
                    escape_next = true;
                } else if ch == q {
                    // End of the quoted name.
                    in_quote = None;
                } else {
                    current.push(ch);
                }
            } else if in_bracket && (ch == '"' || ch == '\'') {
                // Start of a quoted name inside brackets.
                in_quote = Some(ch);
                quoted = true;
            } else if !in_bracket && ch == '.' {
                Self::flush_segment(&mut current, &mut segments);
            } else if !in_bracket && ch == '[' {
                Self::flush_segment(&mut current, &mut segments);
                in_bracket = true;
            } else if in_bracket && ch == ']' {
                let trimmed = trim_chars(&current);
                let index = if quoted {
                    None
                } else {
                    parse_usize_chars(&trimmed)
                };
                match index {
                    Some(idx) => {
                        segments.push(Segment::Index(idx));
                        assert(segs_model(segments@) =~= before.segs.push(PathSeg::Index(idx as nat)));
                    },
                    None => {
                        if trimmed.len() > 0 {
                            // A bracket-quoted field name.
                            segments.push(Segment::Field(string_from_chars(&trimmed)));
                            assert(segs_model(segments@) =~= before.segs.push(PathSeg::Field(trimmed@)));
                        }
                    },
                }
                current = Vec::new();
                in_bracket = false;
                quoted = false;
            } else {
                current.push(ch);
            }
            i = i + 1;
            assert(state_of(segments@, current@, in_bracket, in_quote, escape_next, quoted) =~= step(before, ch));
        }
        assert(chars@.take(chars.len() as int) =~= chars@);
        let ghost last = state_of(segments@, current@, in_bracket, in_quote, escape_next, quoted);
        Self::flush_segment(&mut current, &mut segments);
        assert(flush(state_of(segments@, current@, false, None, false, false)).segs == flush(last).segs);
        PropertyPath { segments }
    }

    /// The number of segments in this path.
    pub fn len(&self) -> (n: usize)
        ensures
            n == self.view().len(),
    {
        self.segments.len()
    }

    /// Whether the path has no segments.
    pub fn is_empty(&self) -> (b: bool)
        ensures
            b == (self.view().len() == 0),
    {
        self.segments.len() == 0
    }
}


impl PropertyPath {
    /// Whether a field name requires bracket-quote notation, i.e. holds
    /// characters that would break dot-path parsing.
    fn needs_bracket_quote(name: &str) -> (b: bool)
        ensures
            b == needs_quote(name@),
    {
        let cs = chars_of(name);
        let mut i: usize = 0;
        while i < cs.len()
            invariant
                i <= cs.len(),
                cs@ == name@,
                forall|j: int| 0 <= j < i ==> cs@[j] != '.' && cs@[j] != '[' && cs@[j] != ']' && cs@[j] != ' ',
            decreases cs.len() - i,
        {
            let c = cs[i];
            if c == '.' || c == '[' || c == ']' || c == ' ' {
                assert(cs@[i as int] == c);
                return true;
            }
            i = i + 1;
        }
        assert(!name@.contains('.') && !name@.contains('[') && !name@.contains(']') && !name@.contains(' ')) by {
            if name@.contains('.') {
                let j = choose|j: int| 0 <= j < name@.len() && name@[j] == '.';
                assert(cs@[j] != '.');
            }
            if name@.contains('[') {
                let j = choose|j: int| 0 <= j < name@.len() && name@[j] == '[';
                assert(cs@[j] != '[');
            }
            if name@.contains(']') {
                let j = choose|j: int| 0 <= j < name@.len() && name@[j] == ']';
                assert(cs@[j] != ']');
            }
            if name@.contains(' ') {
                let j = choose|j: int| 0 <= j < name@.len() && name@[j] == ' ';
                assert(cs@[j] != ' ');
            }
        }
        cs.len() > 0 && cs[0] >= '0' && cs[0] <= '9'
    }

    /// The path as dot/bracket text: names that would break dot-path
    /// parsing are written `["name"]`, other names are joined by dots, and
    /// indices are written `[i]`.
    pub fn to_string_path(&self) -> (r: String)
        ensures
            r@ == path_text(self.view()),
    {
        let mut out = String::new();
        let mut i: usize = 0;
        let ghost v = self.view();
        while i < self.segments.len()
            invariant
                i <= self.segments.len(),
                v == self.view(),
                v.len() == self.segments@.len(),
                out@ == path_text(v.take(i as int)),
            decreases self.segments.len() - i,
        {
            let ghost before = out@;
            assert(v[i as int] == seg_model(self.segments@[i as int]));
            match &self.segments[i] {
                Segment::Field(name) => {
                    if Self::needs_bracket_quote(name.as_str()) {
                        // Bracket-quoted notation: ["name"].
                        string_push(&mut out, '[');
                        string_push(&mut out, '"');
                        out.append(name.as_str());
                        string_push(&mut out, '"');
                        string_push(&mut out, ']');
                        assert(out@ =~= before + (seq!['[', '"'] + name@ + seq!['"', ']']));
                    } else {
                        if i > 0 {
                            string_push(&mut out, '.');
                        }
                        out.append(name.as_str());
                        assert(out@ =~= before + seg_text(v[i as int], i == 0));
                    }
                },
                Segment::Index(idx) => {
                    string_push(&mut out, '[');
                    push_decimal(&mut out, *idx);
                    string_push(&mut out, ']');
                    assert(out@ =~= before + (seq!['['] + decimal(*idx as nat) + seq![']']));
                },
            }
            assert(v.take(i + 1).drop_last() =~= v.take(i as int));
            i = i + 1;
        }
        assert(v.take(v.len() as int) =~= v);
        out
    }

    /// A shared reference to the value at this path, or `None` if the path
    /// doesn't match the value's structure.
    pub fn get<'v>(&self, root: &'v DnaValue) -> (r: Option<&'v DnaValue>)
        ensures
            match r {
                Some(x) => lookup(root.model(), self.view()) == Some(x.model()),
                None => lookup(root.model(), self.view()) is None,
            },
    {
        let ghost v = self.view();
        let mut current = root;
        let mut i: usize = 0;
        assert(v.skip(0) =~= v);
        while i < self.segments.len()
            invariant
                i <= self.segments.len(),
                v == self.view(),
                v.len() == self.segments@.len(),
                lookup(root.model(), v) == lookup(current.model(), v.skip(i as int)),
            decreases self.segments.len() - i,
        {
            let ghost rest = v.skip(i as int);
            assert(rest[0] == seg_model(self.segments@[i as int]));
            assert(rest.drop_first() =~= v.skip(i + 1));
            match (&self.segments[i], current) {
                (Segment::Field(name), DnaValue::Struct(map)) => {
                    match map.get(name.as_str()) {
                        Some(c) => {
                            current = c;
                        },
                        None => {
                            return None;
                        },
                    }
                },
                (Segment::Index(idx), DnaValue::Array(arr)) => {
                    if *idx < arr.len() {
                        current = &arr[*idx];
                    } else {
                        return None;
                    }
                },
                _ => {
                    return None;
                },
            }
            i = i + 1;
        }
        assert(v.skip(v.len() as int) =~= Seq::<PathSeg>::empty());
        Some(current)
    }
}


/// The array's model with element `i` replaced.
proof fn lemma_array_update(old_arr: Vec<DnaValue>, new_arr: Vec<DnaValue>, i: int, w: ValueModel)
    requires
        0 <= i < old_arr@.len(),
        new_arr@.len() == old_arr@.len(),
        new_arr@[i].model() == w,
        forall|j: int| 0 <= j < old_arr@.len() && j != i ==> new_arr@[j] == old_arr@[j],
    ensures
        DnaValue::Array(new_arr).model() == ValueModel::Array(
            DnaValue::Array(old_arr).model()->Array_0.update(i, w),
        ),
{
    assert(DnaValue::Array(new_arr).model()->Array_0 =~= DnaValue::Array(old_arr).model()->Array_0.update(i, w));
}

impl PropertyPath {
    /// Follows `segs[i..]` from `v`, handing out a mutable reference to the
    /// value reached; what is written through it lands at that place.
    fn get_mut_from<'v>(segs: &Vec<Segment>, i: usize, v: &'v mut DnaValue) -> (r: Option<&'v mut DnaValue>)
        requires
            i <= segs@.len(),
        ensures
            r matches Some(x) ==> lookup(old(v).model(), segs_model(segs@).skip(i as int)) == Some((*x).model()),
            r matches Some(x) ==> (*final(v)).model() == replace(old(v).model(), segs_model(segs@).skip(i as int), (*final(x)).model()),
            r is None ==> lookup(old(v).model(), segs_model(segs@).skip(i as int)) is None,
            r is None ==> (*final(v)).model() == old(v).model(),
        decreases segs@.len() - i,
    {
        let ghost rest = segs_model(segs@).skip(i as int);
        if i == segs.len() {
            assert(rest =~= Seq::<PathSeg>::empty());
            return Some(v);
        }
        assert(rest[0] == seg_model(segs@[i as int]));
        assert(rest.drop_first() =~= segs_model(segs@).skip(i + 1));
        match &segs[i] {
            Segment::Field(name) => {
                match v {
                    DnaValue::Struct(map) => {
                        let ghost e = super::value::dna_map_entries(*map);
                        assert(old(v).model() == ValueModel::Struct(e));
                        assert(rest[0] == PathSeg::Field(name@));
                        match map.get_mut(name.as_str()) {
                            Some(c) => {
                                let ghost p = key_position(e, name@);
                                let r = Self::get_mut_from(segs, i + 1, c);
                                proof {
                                    lemma_key_position(e, name@);
                                    if r is Some {
                                        assert(super::value::dna_map_entries(after_borrow(*map)) == e.update(
                                            p,
                                            (name@, replace(e[p].1, rest.drop_first(), (*final(r->0)).model())),
                                        ));
                                    } else {
                                        assert(super::value::dna_map_entries(after_borrow(*map)) =~= e);
                                    }
                                }
                                r
                            },
                            None => None,
                        }
                    },
                    _ => None,
                }
            },
            Segment::Index(idx) => {
                match v {
                    DnaValue::Array(arr) => {
                        assert(rest[0] == PathSeg::Index(*idx as nat));
                        if *idx < arr.len() {
                            let ghost old_arr = *arr;
                            let c = &mut arr[*idx];
                            let r = Self::get_mut_from(segs, i + 1, c);
                            proof {
                                let w = if r is Some {
                                    replace(old_arr@[*idx as int].model(), rest.drop_first(), (*final(r->0)).model())
                                } else {
                                    old_arr@[*idx as int].model()
                                };
                                lemma_array_update(old_arr, after_borrow(*arr), *idx as int, w);
                                if r is None {
                                    assert(DnaValue::Array(old_arr).model()->Array_0.update(*idx as int, w)
                                        =~= DnaValue::Array(old_arr).model()->Array_0);
                                }
                            }
                            r
                        } else {
                            None
                        }
                    },
                    _ => None,
                }
            },
        }
    }
}

impl PropertyPath {
    /// A mutable reference to the value at this path; what is written
    /// through it lands at that place in `root`.
    pub fn get_mut<'v>(&self, root: &'v mut DnaValue) -> (r: Option<&'v mut DnaValue>)
        ensures
            r matches Some(x) ==> lookup(old(root).model(), self.view()) == Some((*x).model()),
            r matches Some(x) ==> (*final(root)).model() == replace(old(root).model(), self.view(), (*final(x)).model()),
            r is None ==> lookup(old(root).model(), self.view()) is None,
            r is None ==> (*final(root)).model() == old(root).model(),
    {
        assert(self.view().skip(0) =~= self.view());
        Self::get_mut_from(&self.segments, 0, root)
    }

    /// Sets the value at this path, returning the old value on success.
    /// An empty path is refused with `EmptyPath`, and a path that leads
    /// nowhere with `FieldNotFound` naming the path.
    pub fn set(&self, root: &mut DnaValue, value: DnaValue) -> (r: Result<DnaValue, PropertyPathError>)
        ensures
            self.view().len() == 0 ==> r == Err::<DnaValue, PropertyPathError>(PropertyPathError::EmptyPath),
            self.view().len() > 0 && lookup(old(root).model(), self.view()) is None ==> (r matches Err(
                PropertyPathError::FieldNotFound(s),
            ) && s@ == path_text(self.view())),
            r is Err ==> (*final(root)).model() == old(root).model(),
            r is Ok <==> (self.view().len() > 0 && lookup(old(root).model(), self.view()) is Some),
            r matches Ok(old_value) ==> {
                &&& lookup(old(root).model(), self.view()) == Some(old_value.model())
                &&& (*final(root)).model() == replace(old(root).model(), self.view(), value.model())
            },
    {
        if self.segments.len() == 0 {
            return Err(PropertyPathError::EmptyPath);
        }
        match self.get_mut(root) {
            Some(target) => {
                let mut old_value = value;
                core::mem::swap(target, &mut old_value);
                Ok(old_value)
            },
            None => Err(PropertyPathError::FieldNotFound(self.to_string_path())),
        }
    }
}

impl PropertyPath {
    /// The path's text, as `Display` writes it: the same as
    /// [`PropertyPath::to_string_path`].
    pub fn to_string(&self) -> (r: String)
        ensures
            r@ == path_text(self.view()),
    {
        self.to_string_path()
    }
}

impl PropertyPathError {
    /// The error's message, as `Display` writes it.
    pub fn to_string(&self) -> (r: String)
        ensures
            r@ == match self {
                PropertyPathError::FieldNotFound(name) => "field not found: "@ + name@,
                PropertyPathError::IndexOutOfBounds { index, len } => "index "@ + decimal(*index as nat)
                    + " out of bounds (len "@ + decimal(*len as nat) + ")"@,
                PropertyPathError::TypeMismatch(msg) => "type mismatch: "@ + msg@,
                PropertyPathError::EmptyPath => "empty property path"@,
            },
    {
        match self {
            PropertyPathError::FieldNotFound(name) => {
                let mut s = String::from_str("field not found: ");
                s.append(name.as_str());
                s
            },
            PropertyPathError::IndexOutOfBounds { index, len } => {
                let mut s = String::from_str("index ");
                push_decimal(&mut s, *index);
                s.append(" out of bounds (len ");
                push_decimal(&mut s, *len);
                s.append(")");
                s
            },
            PropertyPathError::TypeMismatch(msg) => {
                let mut s = String::from_str("type mismatch: ");
                s.append(msg.as_str());
                s
            },
            PropertyPathError::EmptyPath => String::from_str("empty property path"),
        }
    }
}

// ---------------------------------------------------------------------------
// Laws.
// ---------------------------------------------------------------------------

/// Reading a path after writing through it gives back what was written:
/// where `segs` leads somewhere in `v`, setting the value there to `w` and
/// following `segs` again yields `w`.
pub proof fn lemma_get_after_set(v: ValueModel, segs: Seq<PathSeg>, w: ValueModel)
    requires
        lookup(v, segs) is Some,
    ensures
        lookup(replace(v, segs, w), segs) == Some(w),
    decreases segs.len(),
{
    if segs.len() > 0 {
        match (segs[0], v) {
            (PathSeg::Field(name), ValueModel::Struct(e)) => {
                lemma_key_position(e, name);
                let p = key_position(e, name);
                let e2 = e.update(p, (name, replace(e[p].1, segs.drop_first(), w)));
                lemma_get_after_set(e[p].1, segs.drop_first(), w);
                lemma_key_position(e2, name);
                assert(key_position(e2, name) == p) by {
                    lemma_key_position_update(e, p, name, replace(e[p].1, segs.drop_first(), w));
                }
            },
            (PathSeg::Index(i), ValueModel::Array(a)) => {
                lemma_get_after_set(a[i as int], segs.drop_first(), w);
            },
            _ => {},
        }
    }
}

/// A field name that survives the trip through text: not empty, without
/// white space at either end (as every name that `parse` gives), and,
/// where it must be bracket-quoted, free of quotes and backslashes.
pub open spec fn field_name_ok(name: Seq<char>) -> bool {
    &&& name.len() > 0
    &&& trim(name) == name
    &&& needs_quote(name) ==> {
        &&& !name.contains('"')
        &&& !name.contains('\\')
    }
}

/// Every field name survives the trip through text and every index fits
/// in `usize`.
pub open spec fn path_ok(segs: Seq<PathSeg>) -> bool {
    forall|i: int|
        0 <= i < segs.len() ==> match #[trigger] segs[i] {
            PathSeg::Field(name) => field_name_ok(name),
            PathSeg::Index(k) => k <= usize::MAX,
        }
}

spec fn clean_state(segs: Seq<PathSeg>) -> ParseState {
    ParseState { segs, cur: Seq::empty(), in_bracket: false, quote: None, escape: false, quoted: false }
}

spec fn is_plain(seg: PathSeg) -> bool {
    seg matches PathSeg::Field(name) && !needs_quote(name)
}

/// The scanner's state after the text of `segs`: a trailing plain name is
/// still being read.
spec fn state_after(segs: Seq<PathSeg>) -> ParseState {
    if segs.len() > 0 && is_plain(segs.last()) {
        ParseState { cur: segs.last()->Field_0, ..clean_state(segs.drop_last()) }
    } else {
        clean_state(segs)
    }
}

proof fn lemma_run_concat(st: ParseState, a: Seq<char>, b: Seq<char>)
    ensures
        run_from(st, a + b) == run_from(run_from(st, a), b),
    decreases b.len(),
{
    if b.len() == 0 {
        assert(a + b =~= a);
    } else {
        lemma_run_concat(st, a, b.drop_last());
        assert((a + b).drop_last() =~= a + b.drop_last());
        assert((a + b).last() == b.last());
    }
}

/// Characters that the scanner only collects, from a state outside
/// brackets.
proof fn lemma_run_plain(st: ParseState, s: Seq<char>)
    requires
        !st.in_bracket,
        !st.escape,
        !s.contains('.'),
        !s.contains('['),
    ensures
        run_from(st, s) == (ParseState { cur: st.cur + s, ..st }),
    decreases s.len(),
{
    if s.len() == 0 {
        assert(st.cur + s =~= st.cur);
    } else {
        assert(!s.drop_last().contains('.') && !s.drop_last().contains('[')) by {
            if s.drop_last().contains('.') {
                let j = choose|j: int| 0 <= j < s.drop_last().len() && s.drop_last()[j] == '.';
                assert(s[j] == '.');
            }
            if s.drop_last().contains('[') {
                let j = choose|j: int| 0 <= j < s.drop_last().len() && s.drop_last()[j] == '[';
                assert(s[j] == '[');
            }
        }
        lemma_run_plain(st, s.drop_last());
        assert(s.last() == s[s.len() - 1]);
        assert((st.cur + s.drop_last()).push(s.last()) =~= st.cur + s);
    }
}

/// Characters that the scanner only collects inside double quotes.
proof fn lemma_run_quoted(st: ParseState, s: Seq<char>)
    requires
        st.in_bracket,
        st.quote == Some('"'),
        !st.escape,
        !s.contains('"'),
        !s.contains('\\'),
    ensures
        run_from(st, s) == (ParseState { cur: st.cur + s, ..st }),
    decreases s.len(),
{
    if s.len() == 0 {
        assert(st.cur + s =~= st.cur);
    } else {
        assert(!s.drop_last().contains('"') && !s.drop_last().contains('\\')) by {
            if s.drop_last().contains('"') {
                let j = choose|j: int| 0 <= j < s.drop_last().len() && s.drop_last()[j] == '"';
                assert(s[j] == '"');
            }
            if s.drop_last().contains('\\') {
                let j = choose|j: int| 0 <= j < s.drop_last().len() && s.drop_last()[j] == '\\';
                assert(s[j] == '\\');
            }
        }
        lemma_run_quoted(st, s.drop_last());
        assert(s.last() == s[s.len() - 1]);
        assert((st.cur + s.drop_last()).push(s.last()) =~= st.cur + s);
    }
}

/// Digits that the scanner only collects inside brackets.
proof fn lemma_run_digits(st: ParseState, s: Seq<char>)
    requires
        st.in_bracket,
        st.quote is None,
        !st.escape,
        forall|j: int| 0 <= j < s.len() ==> is_digit(#[trigger] s[j]),
    ensures
        run_from(st, s) == (ParseState { cur: st.cur + s, ..st }),
    decreases s.len(),
{
    if s.len() == 0 {
        assert(st.cur + s =~= st.cur);
    } else {
        assert forall|j: int| 0 <= j < s.drop_last().len() implies is_digit(#[trigger] s.drop_last()[j]) by {
            assert(s.drop_last()[j] == s[j]);
        }
        lemma_run_digits(st, s.drop_last());
        assert(is_digit(s[s.len() - 1]));
        assert((st.cur + s.drop_last()).push(s.last()) =~= st.cur + s);
    }
}

proof fn lemma_flush_after(segs: Seq<PathSeg>)
    requires
        path_ok(segs),
    ensures
        flush(state_after(segs)) == clean_state(segs),
{
    if segs.len() > 0 && is_plain(segs.last()) {
        let name = segs.last()->Field_0;
        assert(match segs[segs.len() - 1] {
            PathSeg::Field(n) => field_name_ok(n),
            PathSeg::Index(k) => k <= usize::MAX,
        });
        assert(segs.drop_last().push(PathSeg::Field(name)) =~= segs);
    } else {
        assert(trim(Seq::<char>::empty()) =~= Seq::<char>::empty());
    }
}

/// Reading one more segment's text leaves the scanner in the state after
/// the longer path.
proof fn lemma_seg_step(segs: Seq<PathSeg>, x: PathSeg)
    requires
        path_ok(segs.push(x)),
    ensures
        run_from(state_after(segs), seg_text(x, segs.len() == 0)) == state_after(segs.push(x)),
{
    let all = segs.push(x);
    assert(path_ok(segs)) by {
        assert forall|i: int| 0 <= i < segs.len() implies match #[trigger] segs[i] {
            PathSeg::Field(name) => field_name_ok(name),
            PathSeg::Index(k) => k <= usize::MAX,
        } by {
            assert(all[i] == segs[i]);
        }
    }
    assert(all[segs.len() as int] == x);
    assert(all.drop_last() =~= segs);
    assert(all.last() == x);
    let st = state_after(segs);
    lemma_flush_after(segs);
    reveal_with_fuel(run_from, 3);
    match x {
        PathSeg::Field(name) => {
            if !needs_quote(name) {
                if segs.len() == 0 {
                    assert(st == clean_state(segs));
                    lemma_run_plain(st, name);
                    assert(Seq::<char>::empty() + name =~= name);
                } else {
                    lemma_run_concat(st, seq!['.'], name);
                    assert(seq!['.'].drop_last() =~= Seq::<char>::empty());
                    let s1 = run_from(st, seq!['.']);
                    assert(s1 == flush(st));
                    lemma_run_plain(s1, name);
                    assert(Seq::<char>::empty() + name =~= name);
                }
            } else {
                let open_q: Seq<char> = seq!['[', '"'];
                let close_q: Seq<char> = seq!['"', ']'];
                lemma_run_concat(st, open_q + name, close_q);
                lemma_run_concat(st, open_q, name);
                assert(open_q.drop_last() =~= seq!['[']);
                assert(seq!['['].drop_last() =~= Seq::<char>::empty());
                let s1 = run_from(st, open_q);
                assert(s1 == ParseState { in_bracket: true, quote: Some('"'), quoted: true, ..clean_state(segs) });
                lemma_run_quoted(s1, name);
                let s2 = run_from(s1, name);
                assert(Seq::<char>::empty() + name =~= name);
                assert(close_q.drop_last() =~= seq!['"']);
                assert(seq!['"'].drop_last() =~= Seq::<char>::empty());
                assert(trim(name) == name);
                assert(run_from(s2, close_q) == close_bracket(ParseState { quote: None, ..s2 }));
            }
        },
        PathSeg::Index(k) => {
            let d = decimal(k);
            crate::text::lemma_decimal_digits(k);
            crate::text::lemma_parse_decimal(k);
            crate::text::lemma_trim_clean(d);
            lemma_run_concat(st, seq!['['] + d, seq![']']);
            lemma_run_concat(st, seq!['['], d);
            assert(seq!['['].drop_last() =~= Seq::<char>::empty());
            assert(seq![']'].drop_last() =~= Seq::<char>::empty());
            let s1 = run_from(st, seq!['[']);
            assert(s1 == ParseState { in_bracket: true, ..clean_state(segs) });
            lemma_run_digits(s1, d);
            assert(Seq::<char>::empty() + d =~= d);
        },
    }
}

proof fn lemma_run_path(segs: Seq<PathSeg>)
    requires
        path_ok(segs),
    ensures
        run_from(start_state(), path_text(segs)) == state_after(segs),
    decreases segs.len(),
{
    if segs.len() == 0 {
        assert(segs =~= Seq::<PathSeg>::empty());
    } else {
        let front = segs.drop_last();
        assert(front.push(segs.last()) =~= segs);
        assert(path_ok(front)) by {
            assert forall|i: int| 0 <= i < front.len() implies match #[trigger] front[i] {
                PathSeg::Field(name) => field_name_ok(name),
                PathSeg::Index(k) => k <= usize::MAX,
            } by {
                assert(segs[i] == front[i]);
            }
        }
        lemma_run_path(front);
        lemma_run_concat(start_state(), path_text(front), seg_text(segs.last(), segs.len() == 1));
        lemma_seg_step(front, segs.last());
    }
}

/// Printing a path and parsing the text gives the path back, for every path
/// whose field names survive the trip (see [`field_name_ok`]).
pub proof fn lemma_parse_to_string_roundtrip(segs: Seq<PathSeg>)
    requires
        path_ok(segs),
    ensures
        parse_spec(path_text(segs)) == segs,
{
    lemma_run_path(segs);
    lemma_flush_after(segs);
}

/// Every segment that `parse` gives is a field name that is not empty and
/// has no white space at either end, or an index that fits in `usize`.
spec fn segs_clean(segs: Seq<PathSeg>) -> bool {
    forall|i: int|
        0 <= i < segs.len() ==> match #[trigger] segs[i] {
            PathSeg::Field(name) => name.len() > 0 && trim(name) == name,
            PathSeg::Index(k) => k <= usize::MAX,
        }
}

proof fn lemma_push_clean(segs: Seq<PathSeg>, x: PathSeg)
    requires
        segs_clean(segs),
        match x {
            PathSeg::Field(name) => name.len() > 0 && trim(name) == name,
            PathSeg::Index(k) => k <= usize::MAX,
        },
    ensures
        segs_clean(segs.push(x)),
{
    assert forall|i: int| 0 <= i < segs.len() + 1 implies match #[trigger] segs.push(x)[i] {
        PathSeg::Field(name) => name.len() > 0 && trim(name) == name,
        PathSeg::Index(k) => k <= usize::MAX,
    } by {
        if i < segs.len() {
            assert(segs.push(x)[i] == segs[i]);
        }
    }
}

/// Flushing keeps the segments clean.
proof fn lemma_flush_clean(st: ParseState)
    requires
        segs_clean(st.segs),
    ensures
        segs_clean(flush(st).segs),
{
    let t = trim(st.cur);
    if t.len() > 0 {
        lemma_trim_idempotent(st.cur);
        lemma_push_clean(st.segs, PathSeg::Field(t));
    }
}

/// Each character keeps the segments clean.
proof fn lemma_step_clean(st: ParseState, c: char)
    requires
        segs_clean(st.segs),
    ensures
        segs_clean(step(st, c).segs),
{
    lemma_flush_clean(st);
    let t = trim(st.cur);
    lemma_trim_idempotent(st.cur);
    if t.len() > 0 {
        lemma_push_clean(st.segs, PathSeg::Field(t));
    }
    if let Some(i) = parse_usize(t) {
        lemma_push_clean(st.segs, PathSeg::Index(i));
    }
}

proof fn lemma_run_clean(s: Seq<char>)
    ensures
        segs_clean(run_from(start_state(), s).segs),
    decreases s.len(),
{
    if s.len() > 0 {
        lemma_run_clean(s.drop_last());
        lemma_step_clean(run_from(start_state(), s.drop_last()), s.last());
    }
}

/// A segment whose text needs no quote or backslash: an index, or a field
/// name that is printed bare or holds neither.
pub open spec fn quotable(seg: PathSeg) -> bool {
    match seg {
        PathSeg::Field(name) => needs_quote(name) ==> !name.contains('"') && !name.contains('\\'),
        PathSeg::Index(_) => true,
    }
}

/// Parsing, printing and parsing again gives the parsed path back, for
/// every text whose parsed field names that must be bracket-quoted hold no
/// quote or backslash.
pub proof fn lemma_parse_roundtrip_parsed(s: Seq<char>)
    requires
        forall|i: int| 0 <= i < parse_spec(s).len() ==> quotable(#[trigger] parse_spec(s)[i]),
    ensures
        parse_spec(path_text(parse_spec(s))) == parse_spec(s),
{
    let segs = parse_spec(s);
    lemma_run_clean(s);
    lemma_flush_clean(run_from(start_state(), s));
    assert forall|i: int| 0 <= i < segs.len() implies match #[trigger] segs[i] {
        PathSeg::Field(name) => field_name_ok(name),
        PathSeg::Index(k) => k <= usize::MAX,
    } by {
        assert(quotable(segs[i]));
    }
    lemma_parse_to_string_roundtrip(segs);
}

} // verus!
