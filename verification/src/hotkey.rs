//! Global hotkey text such as `Ctrl+Shift+V` or `Alt+V`: parsing it into
//! modifiers and a key, and what a press of the hotkey does.
use crate::text::{
    chars_of, end_solid, first_solid, is_white_space, lemma_end_solid_bounds, lemma_first_solid_bounds,
    trim_bounds, trimmed,
};
use vstd::prelude::*;

verus! {

/// The modifier keys held with the key.
#[derive(Clone, Copy, PartialEq, Eq, Structural, Debug)]
pub struct Modifiers {
    pub ctrl: bool,
    pub alt: bool,
    pub shift: bool,
    /// The Windows / Super / Command key.
    pub meta: bool,
}

/// The key pressed with the modifiers.
#[derive(Clone, Copy, PartialEq, Eq, Structural, Debug)]
pub enum KeyCode {
    /// A letter key; 0 is `A`, 25 is `Z`.
    Letter(u8),
    /// A digit key; 0 is `0`, 9 is `9`.
    Digit(u8),
}

/// A parsed hotkey: `mods` is `None` when no modifier is held.
#[derive(Clone, Copy, PartialEq, Eq, Structural, Debug)]
pub struct Hotkey {
    pub mods: Option<Modifiers>,
    pub key: KeyCode,
}

/// What one `+`-separated part of a hotkey names.
#[derive(Clone, Copy, PartialEq, Eq, Structural, Debug)]
pub enum Part {
    Ctrl,
    Alt,
    Shift,
    Meta,
    /// Any other word: a key, or `None` when it is not a single letter or
    /// digit.
    Key(Option<KeyCode>),
}

/// `s` split at every `+`, as `str::split('+')` splits it.
pub open spec fn split_plus(s: Seq<char>) -> Seq<Seq<char>>
    decreases s.len(),
{
    if s.len() == 0 {
        seq![Seq::empty()]
    } else {
        let r = split_plus(s.drop_last());
        if s.last() == '+' {
            r.push(Seq::empty())
        } else {
            r.update(r.len() - 1, r.last().push(s.last()))
        }
    }
}

/// ASCII upper-case letters lowered; every other character unchanged.
pub open spec fn ascii_lower(c: char) -> char {
    if 'A' <= c <= 'Z' {
        ((c as u32) + 32) as char
    } else {
        c
    }
}

/// ASCII lower-case letters raised; every other character unchanged.
pub open spec fn ascii_upper(c: char) -> char {
    if 'a' <= c <= 'z' {
        ((c as u32) - 32) as char
    } else {
        c
    }
}

/// `w` with ASCII letters lowered.
pub open spec fn lowered(w: Seq<char>) -> Seq<char> {
    w.map_values(|c: char| ascii_lower(c))
}

/// The key named by a word: one ASCII letter (either case) or digit.
pub open spec fn key_code(w: Seq<char>) -> Option<KeyCode> {
    if w.len() == 1 && (w[0] as u32) < 128 {
        let c = ascii_upper(w[0]);
        if 'A' <= c <= 'Z' {
            Some(KeyCode::Letter(((c as u32) - 65) as u8))
        } else if '0' <= c <= '9' {
            Some(KeyCode::Digit(((c as u32) - 48) as u8))
        } else {
            None
        }
    } else {
        None
    }
}

/// What a lower-case word names.
pub open spec fn classify(w: Seq<char>) -> Part {
    if w == seq!['c', 't', 'r', 'l'] || w == seq!['c', 'o', 'n', 't', 'r', 'o', 'l'] {
        Part::Ctrl
    } else if w == seq!['a', 'l', 't'] {
        Part::Alt
    } else if w == seq!['s', 'h', 'i', 'f', 't'] {
        Part::Shift
    } else if w == seq!['w', 'i', 'n'] || w == seq!['s', 'u', 'p', 'e', 'r'] || w == seq![
        'm',
        'e',
        't',
        'a',
    ] || w == seq!['c', 'm', 'd'] {
        Part::Meta
    } else {
        Part::Key(key_code(w))
    }
}

/// No modifier held.
pub open spec fn no_mods() -> Modifiers {
    Modifiers { ctrl: false, alt: false, shift: false, meta: false }
}

/// The parse state after one more part: modifiers accumulate, and each
/// non-modifier part replaces the key (with `None` when it names no key).
pub open spec fn step(st: (Modifiers, Option<KeyCode>), p: Part) -> (Modifiers, Option<KeyCode>) {
    match p {
        Part::Ctrl => (Modifiers { ctrl: true, ..st.0 }, st.1),
        Part::Alt => (Modifiers { alt: true, ..st.0 }, st.1),
        Part::Shift => (Modifiers { shift: true, ..st.0 }, st.1),
        Part::Meta => (Modifiers { meta: true, ..st.0 }, st.1),
        Part::Key(k) => (st.0, k),
    }
}

/// The parse state after the given parts, each trimmed and lowered first.
pub open spec fn parse_parts(parts: Seq<Seq<char>>) -> (Modifiers, Option<KeyCode>)
    decreases parts.len(),
{
    if parts.len() == 0 {
        (no_mods(), None)
    } else {
        step(parse_parts(parts.drop_last()), classify(lowered(trimmed(parts.last()))))
    }
}

/// The hotkey that a text names, if any.
pub open spec fn parse_spec(s: Seq<char>) -> Option<Hotkey> {
    let st = parse_parts(split_plus(s));
    match st.1 {
        Some(k) => Some(
            Hotkey { mods: if st.0 == no_mods() { None } else { Some(st.0) }, key: k },
        ),
        None => None,
    }
}

fn same_chars(a: &Vec<char>, b: &Vec<char>) -> (r: bool)
    ensures
        r == (a@ == b@),
{
    if a.len() != b.len() {
        return false;
    }
    let mut k: usize = 0;
    while k < a.len()
        invariant
            a@.len() == b@.len(),
            k <= a@.len(),
            forall|m: int| 0 <= m < k ==> a@[m] == b@[m],
        decreases a@.len() - k,
    {
        if a[k] != b[k] {
            return false;
        }
        k = k + 1;
    }
    assert(a@ =~= b@);
    true
}

fn lower_char(c: char) -> (r: char)
    ensures
        r == ascii_lower(c),
{
    if 'A' <= c && c <= 'Z' {
        let u = (c as u8) + 32;
        u as char
    } else {
        c
    }
}

/// The key named by a lower-case word.
pub fn key_to_code(w: &Vec<char>) -> (r: Option<KeyCode>)
    ensures
        r == key_code(w@),
{
    if w.len() != 1 {
        return None;
    }
    let c0 = w[0];
    if (c0 as u32) >= 128 {
        return None;
    }
    let c = if 'a' <= c0 && c0 <= 'z' {
        ((c0 as u8) - 32) as char
    } else {
        c0
    };
    if 'A' <= c && c <= 'Z' {
        Some(KeyCode::Letter((c as u8) - 65))
    } else if '0' <= c && c <= '9' {
        Some(KeyCode::Digit((c as u8) - 48))
    } else {
        None
    }
}

/// What a lower-case word names.
pub fn classify_word(w: &Vec<char>) -> (r: Part)
    ensures
        r == classify(w@),
{
    let ctrl = vec!['c', 't', 'r', 'l'];
    let control = vec!['c', 'o', 'n', 't', 'r', 'o', 'l'];
    let alt = vec!['a', 'l', 't'];
    let shift = vec!['s', 'h', 'i', 'f', 't'];
    let win = vec!['w', 'i', 'n'];
    let sup = vec!['s', 'u', 'p', 'e', 'r'];
    let meta = vec!['m', 'e', 't', 'a'];
    let cmd = vec!['c', 'm', 'd'];
    assert(ctrl@ =~= seq!['c', 't', 'r', 'l']);
    assert(control@ =~= seq!['c', 'o', 'n', 't', 'r', 'o', 'l']);
    assert(alt@ =~= seq!['a', 'l', 't']);
    assert(shift@ =~= seq!['s', 'h', 'i', 'f', 't']);
    assert(win@ =~= seq!['w', 'i', 'n']);
    assert(sup@ =~= seq!['s', 'u', 'p', 'e', 'r']);
    assert(meta@ =~= seq!['m', 'e', 't', 'a']);
    assert(cmd@ =~= seq!['c', 'm', 'd']);
    if same_chars(w, &ctrl) || same_chars(w, &control) {
        Part::Ctrl
    } else if same_chars(w, &alt) {
        Part::Alt
    } else if same_chars(w, &shift) {
        Part::Shift
    } else if same_chars(w, &win) || same_chars(w, &sup) || same_chars(w, &meta) || same_chars(
        w,
        &cmd,
    ) {
        Part::Meta
    } else {
        Part::Key(key_to_code(w))
    }
}

/// What a raw part names: trimmed, lowered, then classified.
fn classify_piece(piece: &Vec<char>) -> (r: Part)
    ensures
        r == classify(lowered(trimmed(piece@))),
{
    let (a, b) = trim_bounds(piece);
    let mut w: Vec<char> = Vec::new();
    let mut k: usize = a;
    if a < b {
        while k < b
            invariant
                a <= k <= b,
                b <= piece@.len(),
                w@ == lowered(piece@.subrange(a as int, k as int)),
            decreases b - k,
        {
            let c = lower_char(piece[k]);
            w.push(c);
            assert(lowered(piece@.subrange(a as int, k + 1)) =~= lowered(
                piece@.subrange(a as int, k as int),
            ).push(c));
            k = k + 1;
        }
    } else {
        assert(w@ =~= lowered(Seq::<char>::empty()));
    }
    classify_word(&w)
}

fn apply_part(st: (Modifiers, Option<KeyCode>), p: Part) -> (r: (Modifiers, Option<KeyCode>))
    ensures
        r == step(st, p),
{
    let (m, k) = st;
    match p {
        Part::Ctrl => (Modifiers { ctrl: true, ..m }, k),
        Part::Alt => (Modifiers { alt: true, ..m }, k),
        Part::Shift => (Modifiers { shift: true, ..m }, k),
        Part::Meta => (Modifiers { meta: true, ..m }, k),
        Part::Key(c) => (m, c),
    }
}

proof fn lemma_split_plus_nonempty(s: Seq<char>)
    ensures
        split_plus(s).len() >= 1,
    decreases s.len(),
{
    if s.len() > 0 {
        lemma_split_plus_nonempty(s.drop_last());
    }
}

/// Parses hotkey text such as `Ctrl+Shift+V` or `Alt+V`: parts separated by
/// `+`, each trimmed and compared without regard to ASCII case; `ctrl` /
/// `control`, `alt`, `shift` and `win` / `super` / `meta` / `cmd` are
/// modifiers, and the last other part must be a single letter or digit.
pub fn parse(spec: &str) -> (r: Option<Hotkey>)
    ensures
        r == parse_spec(spec@),
{
    let cs = chars_of(spec);
    let n = cs.len();
    let mut st: (Modifiers, Option<KeyCode>) = (
        Modifiers { ctrl: false, alt: false, shift: false, meta: false },
        None,
    );
    let mut cur: Vec<char> = Vec::new();
    let ghost mut done: Seq<Seq<char>> = Seq::empty();
    let mut i: usize = 0;
    assert(cs@.take(0) =~= Seq::<char>::empty());
    while i < n
        invariant
            n == cs@.len(),
            i <= n,
            split_plus(cs@.take(i as int)) == done.push(cur@),
            st == parse_parts(done),
        decreases n - i,
    {
        let c = cs[i];
        assert(cs@.take(i + 1).drop_last() =~= cs@.take(i as int));
        assert(cs@.take(i + 1).last() == c);
        if c == '+' {
            let p = classify_piece(&cur);
            st = apply_part(st, p);
            proof {
                assert(done.push(cur@).drop_last() =~= done);
                done = done.push(cur@);
            }
            cur = Vec::new();
            assert(split_plus(cs@.take(i + 1)) =~= done.push(cur@));
        } else {
            let ghost before = cur@;
            cur.push(c);
            assert(split_plus(cs@.take(i + 1)) =~= done.push(cur@)) by {
                lemma_split_plus_nonempty(cs@.take(i as int));
                assert(done.push(before).update(done.len() as int, before.push(c)) =~= done.push(
                    cur@,
                ));
            }
        }
        i = i + 1;
    }
    assert(cs@.take(n as int) =~= cs@);
    let p = classify_piece(&cur);
    let fin = apply_part(st, p);
    proof {
        let parts = done.push(cur@);
        assert(parts.drop_last() =~= done);
    }
    match fin.1 {
        Some(k) => {
            let m = fin.0;
            let none = !m.ctrl && !m.alt && !m.shift && !m.meta;
            Some(
                Hotkey {
                    mods: if none {
                        None
                    } else {
                        Some(m)
                    },
                    key: k,
                },
            )
        },
        None => None,
    }
}

/// The error text for hotkey text that names no hotkey.
pub open spec fn unparsable_message(spec: Seq<char>) -> Seq<char> {
    seq![
        '\u{65e0}',
        '\u{6cd5}',
        '\u{89e3}',
        '\u{6790}',
        '\u{5feb}',
        '\u{6377}',
        '\u{952e}',
        ':',
        ' ',
    ] + spec
}

/// The hotkey to register for `spec`, or the error shown when `spec` names
/// no hotkey ("无法解析快捷键: " followed by the text).
pub fn register(spec: &str) -> (r: Result<Hotkey, String>)
    ensures
        parse_spec(spec@) matches Some(h) ==> r == Ok::<Hotkey, String>(h),
        parse_spec(spec@) is None ==> (r matches Err(e) && e@ == unparsable_message(spec@)),
{
    match parse(spec) {
        Some(h) => Ok(h),
        None => {
            let mut msg = String::from_str("\u{65e0}\u{6cd5}\u{89e3}\u{6790}\u{5feb}\u{6377}\u{952e}: ");
            msg.append(spec);
            proof {
                reveal_strlit("\u{65e0}\u{6cd5}\u{89e3}\u{6790}\u{5feb}\u{6377}\u{952e}: ");
                assert(msg@ =~= unparsable_message(spec@));
            }
            Err(msg)
        },
    }
}

proof fn lemma_lowered_idempotent(w: Seq<char>)
    ensures
        lowered(lowered(w)) == lowered(w),
{
    assert(lowered(lowered(w)) =~= lowered(w));
}

proof fn lemma_split_lowered(s: Seq<char>)
    ensures
        split_plus(lowered(s)) == split_plus(s).map_values(|p: Seq<char>| lowered(p)),
    decreases s.len(),
{
    if s.len() == 0 {
        assert(lowered(s) =~= Seq::<char>::empty());
        assert(split_plus(s).map_values(|p: Seq<char>| lowered(p)) =~= seq![Seq::<char>::empty()]) by {
            assert(lowered(Seq::<char>::empty()) =~= Seq::<char>::empty());
        }
    } else {
        let ls = lowered(s);
        assert(ls.drop_last() =~= lowered(s.drop_last()));
        lemma_split_lowered(s.drop_last());
        lemma_split_plus_nonempty(s.drop_last());
        let r = split_plus(s.drop_last());
        let f = |p: Seq<char>| lowered(p);
        if s.last() == '+' {
            assert(ls.last() == '+');
            assert(lowered(Seq::<char>::empty()) =~= Seq::<char>::empty());
            assert(r.push(Seq::empty()).map_values(f) =~= r.map_values(f).push(Seq::empty()));
        } else {
            assert(ls.last() != '+');
            assert(ls.last() == ascii_lower(s.last()));
            assert(lowered(r.last().push(s.last())) =~= lowered(r.last()).push(ls.last()));
            assert(r.update(r.len() - 1, r.last().push(s.last())).map_values(f) =~= r.map_values(
                f,
            ).update(r.len() - 1, r.map_values(f).last().push(ls.last())));
        }
    }
}

proof fn lemma_first_solid_lowered(p: Seq<char>, i: int)
    ensures
        first_solid(lowered(p), i) == first_solid(p, i),
    decreases p.len() - i,
{
    if 0 <= i < p.len() {
        assert(lowered(p)[i] == ascii_lower(p[i]));
        assert(is_white_space(ascii_lower(p[i])) == is_white_space(p[i]));
        lemma_first_solid_lowered(p, i + 1);
    }
}

proof fn lemma_end_solid_lowered(p: Seq<char>, j: int)
    ensures
        end_solid(lowered(p), j) == end_solid(p, j),
    decreases j,
{
    if 0 < j <= p.len() {
        assert(lowered(p)[j - 1] == ascii_lower(p[j - 1]));
        assert(is_white_space(ascii_lower(p[j - 1])) == is_white_space(p[j - 1]));
        lemma_end_solid_lowered(p, j - 1);
    }
}

proof fn lemma_trim_lowered(p: Seq<char>)
    ensures
        trimmed(lowered(p)) == lowered(trimmed(p)),
{
    lemma_first_solid_lowered(p, 0);
    lemma_end_solid_lowered(p, p.len() as int);
    let a = first_solid(p, 0);
    let b = end_solid(p, p.len() as int);
    if a < b {
        assert(0 <= a && b <= p.len()) by {
            lemma_first_solid_bounds(p, 0);
            lemma_end_solid_bounds(p, p.len() as int);
        }
        assert(lowered(p).subrange(a, b) =~= lowered(p.subrange(a, b)));
    } else {
        assert(lowered(Seq::<char>::empty()) =~= Seq::<char>::empty());
    }
}

proof fn lemma_parse_parts_lowered(parts: Seq<Seq<char>>)
    ensures
        parse_parts(parts.map_values(|p: Seq<char>| lowered(p))) == parse_parts(parts),
    decreases parts.len(),
{
    let f = |p: Seq<char>| lowered(p);
    let lp = parts.map_values(f);
    if parts.len() > 0 {
        assert(lp.drop_last() =~= parts.drop_last().map_values(f));
        lemma_parse_parts_lowered(parts.drop_last());
        let q = parts.last();
        assert(lp.last() == lowered(q));
        lemma_trim_lowered(q);
        lemma_lowered_idempotent(trimmed(q));
    }
}

/// Hotkey text is read without regard to ASCII case: lowering every ASCII
/// letter of the text names the same hotkey.
pub proof fn law_parse_ignores_case(s: Seq<char>)
    ensures
        parse_spec(lowered(s)) == parse_spec(s),
{
    lemma_split_lowered(s);
    lemma_parse_parts_lowered(split_plus(s));
}

proof fn lemma_split_plus_concat(x: Seq<char>, y: Seq<char>)
    ensures
        split_plus(x + seq!['+'] + y) == split_plus(x) + split_plus(y),
    decreases y.len(),
{
    let t = x + seq!['+'] + y;
    if y.len() == 0 {
        assert(t.drop_last() =~= x);
        assert(split_plus(x).push(Seq::empty()) =~= split_plus(x) + split_plus(y));
    } else {
        let y1 = y.drop_last();
        assert(t.drop_last() =~= x + seq!['+'] + y1);
        assert(t.last() == y.last());
        lemma_split_plus_concat(x, y1);
        lemma_split_plus_nonempty(y1);
        let a = split_plus(x);
        let b = split_plus(y1);
        if y.last() == '+' {
            assert((a + b).push(Seq::empty()) =~= a + b.push(Seq::empty()));
        } else {
            let r = a + b;
            assert(r.update(r.len() - 1, r.last().push(y.last())) =~= a + b.update(
                b.len() - 1,
                b.last().push(y.last()),
            ));
        }
    }
}

proof fn lemma_split_plus_single(p: Seq<char>)
    requires
        forall|i: int| 0 <= i < p.len() ==> p[i] != '+',
    ensures
        split_plus(p) == seq![p],
    decreases p.len(),
{
    if p.len() == 0 {
        assert(p =~= Seq::<char>::empty());
        assert(split_plus(p) =~= seq![p]);
    } else {
        let q = p.drop_last();
        lemma_split_plus_single(q);
        assert(p[p.len() - 1] == p.last());
        assert(q.push(p.last()) =~= p);
        assert(seq![q].update(0, q.push(p.last())) =~= seq![p]);
    }
}

proof fn lemma_modifier_step_commutes(st: (Modifiers, Option<KeyCode>), m: Part, q: Part)
    requires
        !(m is Key),
    ensures
        step(step(st, m), q) == step(step(st, q), m),
{
}

proof fn lemma_parse_parts_modifier_anywhere(a: Seq<Seq<char>>, p: Seq<char>, b: Seq<Seq<char>>)
    requires
        !(classify(lowered(trimmed(p))) is Key),
    ensures
        parse_parts(a + seq![p] + b) == step(parse_parts(a + b), classify(lowered(trimmed(p)))),
    decreases b.len(),
{
    let m = classify(lowered(trimmed(p)));
    if b.len() == 0 {
        assert((a + seq![p] + b).drop_last() =~= a);
        assert(a + b =~= a);
    } else {
        let b1 = b.drop_last();
        assert((a + seq![p] + b).drop_last() =~= a + seq![p] + b1);
        assert((a + b).drop_last() =~= a + b1);
        lemma_parse_parts_modifier_anywhere(a, p, b1);
        lemma_modifier_step_commutes(parse_parts(a + b1), m, classify(lowered(trimmed(b.last()))));
    }
}

/// The modifiers a parsed hotkey holds (none when `mods` is `None`).
pub open spec fn held_mods(h: Hotkey) -> Modifiers {
    match h.mods {
        Some(m) => m,
        None => no_mods(),
    }
}

/// Flag-wise union of two modifier sets.
pub open spec fn mods_union(a: Modifiers, b: Modifiers) -> Modifiers {
    Modifiers { ctrl: a.ctrl || b.ctrl, alt: a.alt || b.alt, shift: a.shift || b.shift, meta: a.meta || b.meta }
}

/// A parse result with the modifiers `extra` added to those it holds and the
/// same key; no hotkey stays no hotkey.
pub open spec fn with_mods_added(r: Option<Hotkey>, extra: Modifiers) -> Option<Hotkey> {
    match r {
        Some(h) => Some(Hotkey { mods: Some(mods_union(held_mods(h), extra)), key: h.key }),
        None => None,
    }
}

/// Control alone.
pub open spec fn ctrl_only() -> Modifiers {
    Modifiers { ctrl: true, alt: false, shift: false, meta: false }
}

/// Alt alone.
pub open spec fn alt_only() -> Modifiers {
    Modifiers { ctrl: false, alt: true, shift: false, meta: false }
}

/// Shift alone.
pub open spec fn shift_only() -> Modifiers {
    Modifiers { ctrl: false, alt: false, shift: true, meta: false }
}

/// The Windows / Super / Command key alone.
pub open spec fn meta_only() -> Modifiers {
    Modifiers { ctrl: false, alt: false, shift: false, meta: true }
}

/// Each modifier word, trimmed and in any ASCII case, names its modifier:
/// `ctrl` and `control` name Control, `alt` names Alt, `shift` names Shift,
/// and `win`, `super`, `meta` and `cmd` name the meta key. A `+`-separated
/// part that is one of them, put in front of any hotkey text or after it,
/// adds that modifier and leaves the key as it was; text that named no
/// hotkey still names none.
pub proof fn law_modifier_words(p: Seq<char>, rest: Seq<char>)
    requires
        forall|i: int| 0 <= i < p.len() ==> p[i] != '+',
    ensures
        ({
            let w = lowered(trimmed(p));
            let before = p + seq!['+'] + rest;
            let after = rest + seq!['+'] + p;
            &&& (w == seq!['c', 't', 'r', 'l'] || w == seq!['c', 'o', 'n', 't', 'r', 'o', 'l']) ==> {
                &&& parse_spec(before) == with_mods_added(parse_spec(rest), ctrl_only())
                &&& parse_spec(after) == with_mods_added(parse_spec(rest), ctrl_only())
            }
            &&& w == seq!['a', 'l', 't'] ==> {
                &&& parse_spec(before) == with_mods_added(parse_spec(rest), alt_only())
                &&& parse_spec(after) == with_mods_added(parse_spec(rest), alt_only())
            }
            &&& w == seq!['s', 'h', 'i', 'f', 't'] ==> {
                &&& parse_spec(before) == with_mods_added(parse_spec(rest), shift_only())
                &&& parse_spec(after) == with_mods_added(parse_spec(rest), shift_only())
            }
            &&& (w == seq!['w', 'i', 'n'] || w == seq!['s', 'u', 'p', 'e', 'r'] || w == seq![
                'm',
                'e',
                't',
                'a',
            ] || w == seq!['c', 'm', 'd']) ==> {
                &&& parse_spec(before) == with_mods_added(parse_spec(rest), meta_only())
                &&& parse_spec(after) == with_mods_added(parse_spec(rest), meta_only())
            }
        }),
{
    let w = lowered(trimmed(p));
    let m = classify(w);
    if !(m is Key) {
        lemma_split_plus_concat(p, rest);
        lemma_split_plus_concat(rest, p);
        lemma_split_plus_single(p);
        let b = split_plus(rest);
        let e = Seq::<Seq<char>>::empty();
        lemma_parse_parts_modifier_anywhere(e, p, b);
        assert(e + seq![p] + b =~= seq![p] + b);
        assert(e + b =~= b);
        lemma_parse_parts_modifier_anywhere(b, p, e);
        assert(b + seq![p] + e =~= b + seq![p]);
        assert(b + e =~= b);
    }
}

/// The key of an ASCII letter (either case) or digit: a letter's key counts
/// from 0 for `A` up to 25 for `Z`, a digit's is its value.
pub open spec fn key_of_char(c: char) -> KeyCode {
    if '0' <= c <= '9' {
        KeyCode::Digit(((c as u32) - 48) as u8)
    } else if c <= 'Z' {
        KeyCode::Letter(((c as u32) - 65) as u8)
    } else {
        KeyCode::Letter(((c as u32) - 97) as u8)
    }
}

proof fn lemma_single_key_part(c: char)
    requires
        'a' <= c <= 'z' || 'A' <= c <= 'Z' || '0' <= c <= '9',
    ensures
        split_plus(seq![c]) == seq![seq![c]],
        classify(lowered(trimmed(seq![c]))) == Part::Key(Some(key_of_char(c))),
{
    let s = seq![c];
    lemma_split_plus_single(s);
    assert(!is_white_space(c));
    assert(first_solid(s, 0) == 0);
    assert(end_solid(s, 1) == 1);
    assert(trimmed(s) =~= s);
    let lc = ascii_lower(c);
    assert(lowered(s) =~= seq![lc]);
    assert(classify(seq![lc]) == Part::Key(key_code(seq![lc])));
}

/// Hotkey text that is one ASCII letter, in either case, or one digit names
/// that key with no modifier held.
pub proof fn law_single_key(c: char)
    requires
        'a' <= c <= 'z' || 'A' <= c <= 'Z' || '0' <= c <= '9',
    ensures
        parse_spec(seq![c]) == Some(Hotkey { mods: None, key: key_of_char(c) }),
{
    lemma_single_key_part(c);
    let parts = seq![seq![c]];
    assert(parts.drop_last() =~= Seq::<Seq<char>>::empty());
    assert(parse_parts(Seq::<Seq<char>>::empty()) == (no_mods(), None::<KeyCode>));
}

/// A letter or digit as the last `+`-separated part decides the key, whatever
/// came before it, and the modifiers do not depend on which key it is: after
/// any text, `+c` names a hotkey with the key of `c`, holding the same
/// modifiers as `+d` would for any other letter or digit `d`.
pub proof fn law_last_key_decides(rest: Seq<char>, c: char, d: char)
    requires
        'a' <= c <= 'z' || 'A' <= c <= 'Z' || '0' <= c <= '9',
        'a' <= d <= 'z' || 'A' <= d <= 'Z' || '0' <= d <= '9',
    ensures
        parse_spec(rest + seq!['+', c]) matches Some(h) && h.key == key_of_char(c),
        parse_spec(rest + seq!['+', c]).unwrap().mods == parse_spec(rest + seq!['+', d]).unwrap().mods,
{
    lemma_single_key_part(c);
    lemma_single_key_part(d);
    lemma_split_plus_concat(rest, seq![c]);
    lemma_split_plus_concat(rest, seq![d]);
    assert(rest + seq!['+'] + seq![c] =~= rest + seq!['+', c]);
    assert(rest + seq!['+'] + seq![d] =~= rest + seq!['+', d]);
    let x = split_plus(rest);
    assert((x + seq![seq![c]]).drop_last() =~= x);
    assert((x + seq![seq![d]]).drop_last() =~= x);
}

/// What a press of the hotkey does.
#[derive(Clone, Copy, PartialEq, Eq, Structural, Debug)]
pub enum TriggerAction {
    /// The panel is showing: hide it.
    Hide,
    /// The panel is hidden: switch it to the clipboard view and show it at
    /// the cursor.
    ShowClipboard,
}

/// A hotkey press hides a visible panel and shows a hidden one.
pub fn on_trigger(visible: bool) -> (r: TriggerAction)
    ensures
        r == (if visible {
            TriggerAction::Hide
        } else {
            TriggerAction::ShowClipboard
        }),
{
    if visible {
        TriggerAction::Hide
    } else {
        TriggerAction::ShowClipboard
    }
}

} // verus!
