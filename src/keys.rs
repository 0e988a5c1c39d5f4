//! Turning text into an ordered list of key presses and releases, and those
//! into the primitive key events the operating system takes.

use vstd::prelude::*;

verus! {

/// Virtual-key code of the quote key.
pub const VK_QUOTE: u8 = 0xDE;

/// Virtual-key code of the shift key.
pub const VK_SHIFT: u8 = 0x10;

/// Virtual-key code of the space bar.
pub const VK_SPACE: u8 = 0x20;

/// Number of characters of the 7-bit character set.
pub const LAYOUT_SIZE: usize = 128;

/// One step of a typing sequence.
#[derive(Clone, Copy, Debug, PartialEq, Eq, Structural)]
pub enum KeyAction {
    KeyPress(u8),
    KeyRelease(u8),
    ShiftPress,
    ShiftRelease,
    Space,
}

/// A single key going down (`up == false`) or up.
#[derive(Clone, Copy, Debug, PartialEq, Eq, Structural)]
pub struct KeyEvent {
    pub code: u8,
    pub up: bool,
}

/// The keyboard layout as the system reports it: for each 7-bit character,
/// the key code in the low byte, the shift flag in bit 8, or -1 when no key
/// types it.
pub struct KeyLayout {
    scans: Vec<i16>,
}

impl KeyLayout {
    pub closed spec fn scans_spec(&self) -> Seq<i16> {
        self.scans@
    }

    pub closed spec fn wf(&self) -> bool {
        self.scans@.len() == LAYOUT_SIZE
    }

    /// A layout from one scan result per 7-bit character; `None` unless there
    /// are exactly 128 of them.
    pub fn new(scans: Vec<i16>) -> (r: Option<KeyLayout>)
        ensures
            r.is_some() <==> scans@.len() == LAYOUT_SIZE,
            r matches Some(l) ==> l.wf() && l.scans_spec() == scans@,
    {
        if scans.len() == LAYOUT_SIZE {
            Some(KeyLayout { scans })
        } else {
            None
        }
    }
}

/// The key code part of a scan result.
pub open spec fn key_of(scan: i16) -> u8 {
    (scan & 0xFF) as u8
}

/// The shift flag of a scan result.
pub open spec fn needs_shift(scan: i16) -> bool {
    (scan & 0x100) != 0
}

/// The actions that type `c`; empty when `c` cannot be typed.
pub open spec fn char_actions(layout: Seq<i16>, c: char) -> Seq<KeyAction> {
    if c == ' ' {
        seq![KeyAction::Space]
    } else if c == '\'' {
        seq![KeyAction::KeyPress(VK_QUOTE), KeyAction::KeyRelease(VK_QUOTE), KeyAction::Space]
    } else if c == '"' {
        seq![
            KeyAction::ShiftPress,
            KeyAction::KeyPress(VK_QUOTE),
            KeyAction::KeyRelease(VK_QUOTE),
            KeyAction::ShiftRelease,
            KeyAction::Space,
        ]
    } else if (c as u32) < LAYOUT_SIZE {
        let scan = layout[c as u32 as int];
        let k = key_of(scan);
        if scan == -1 || k == 0 {
            seq![]
        } else if needs_shift(scan) {
            seq![KeyAction::ShiftPress, KeyAction::KeyPress(k), KeyAction::KeyRelease(k), KeyAction::ShiftRelease]
        } else {
            seq![KeyAction::KeyPress(k), KeyAction::KeyRelease(k)]
        }
    } else {
        seq![]
    }
}

/// The actions that type `s`, character after character.
pub open spec fn compile_spec(layout: Seq<i16>, s: Seq<char>) -> Seq<KeyAction>
    decreases s.len(),
{
    if s.len() == 0 {
        seq![]
    } else {
        compile_spec(layout, s.drop_last()) + char_actions(layout, s.last())
    }
}

/// The key events that carry out `a`.
pub open spec fn action_events(a: KeyAction) -> Seq<KeyEvent> {
    match a {
        KeyAction::KeyPress(k) => seq![KeyEvent { code: k, up: false }],
        KeyAction::KeyRelease(k) => seq![KeyEvent { code: k, up: true }],
        KeyAction::ShiftPress => seq![KeyEvent { code: VK_SHIFT, up: false }],
        KeyAction::ShiftRelease => seq![KeyEvent { code: VK_SHIFT, up: true }],
        KeyAction::Space => seq![KeyEvent { code: VK_SPACE, up: false }, KeyEvent { code: VK_SPACE, up: true }],
    }
}

/// The key events that carry out `s`, in order.
pub open spec fn events_spec(s: Seq<KeyAction>) -> Seq<KeyEvent>
    decreases s.len(),
{
    if s.len() == 0 {
        seq![]
    } else {
        events_spec(s.drop_last()) + action_events(s.last())
    }
}

/// Key-down events of `code` in `es` minus its key-up events.
pub open spec fn net_down(es: Seq<KeyEvent>, code: u8) -> int
    decreases es.len(),
{
    if es.len() == 0 {
        0
    } else {
        net_down(es.drop_last(), code) + if es.last().code != code {
            0int
        } else if es.last().up {
            -1int
        } else {
            1int
        }
    }
}

proof fn lemma_net_down_concat(a: Seq<KeyEvent>, b: Seq<KeyEvent>, code: u8)
    ensures
        net_down(a + b, code) == net_down(a, code) + net_down(b, code),
    decreases b.len(),
{
    if b.len() == 0 {
        assert(a + b =~= a);
    } else {
        assert((a + b).drop_last() =~= a + b.drop_last());
        lemma_net_down_concat(a, b.drop_last(), code);
    }
}

proof fn lemma_events_concat(a: Seq<KeyAction>, b: Seq<KeyAction>)
    ensures
        events_spec(a + b) == events_spec(a) + events_spec(b),
    decreases b.len(),
{
    if b.len() == 0 {
        assert(a + b =~= a);
        assert(events_spec(a) + events_spec(b) =~= events_spec(a));
    } else {
        assert((a + b).drop_last() =~= a + b.drop_last());
        lemma_events_concat(a, b.drop_last());
        assert(events_spec(a + b) =~= events_spec(a) + events_spec(b));
    }
}

/// Net key-downs of `code` that one action makes.
pub open spec fn action_net(a: KeyAction, code: u8) -> int {
    match a {
        KeyAction::KeyPress(k) => if k == code { 1 } else { 0 },
        KeyAction::KeyRelease(k) => if k == code { -1 } else { 0 },
        KeyAction::ShiftPress => if VK_SHIFT == code { 1 } else { 0 },
        KeyAction::ShiftRelease => if VK_SHIFT == code { -1 } else { 0 },
        KeyAction::Space => 0,
    }
}

/// Net key-downs of `code` over a list of actions.
pub open spec fn actions_net(acts: Seq<KeyAction>, code: u8) -> int
    decreases acts.len(),
{
    if acts.len() == 0 {
        0
    } else {
        actions_net(acts.drop_last(), code) + action_net(acts.last(), code)
    }
}

proof fn lemma_net_of_actions(acts: Seq<KeyAction>, code: u8)
    ensures
        net_down(events_spec(acts), code) == actions_net(acts, code),
    decreases acts.len(),
{
    if acts.len() > 0 {
        lemma_net_of_actions(acts.drop_last(), code);
        let e = action_events(acts.last());
        lemma_net_down_concat(events_spec(acts.drop_last()), e, code);
        reveal_with_fuel(net_down, 3);
        if e.len() == 2 {
            assert(e.drop_last() =~= seq![e[0]]);
            assert(seq![e[0]].drop_last() =~= Seq::<KeyEvent>::empty());
        } else {
            assert(e.drop_last() =~= Seq::<KeyEvent>::empty());
        }
    }
}

proof fn lemma_char_balanced(layout: Seq<i16>, c: char, code: u8)
    ensures
        net_down(events_spec(char_actions(layout, c)), code) == 0,
{
    let a = char_actions(layout, c);
    lemma_net_of_actions(a, code);
    reveal_with_fuel(actions_net, 6);
    if a.len() >= 1 {
        assert(a.drop_last() =~= a.subrange(0, a.len() - 1));
    }
    if a.len() == 5 {
        assert(a.drop_last().drop_last().drop_last().drop_last() =~= seq![a[0]]);
        assert(seq![a[0]].drop_last() =~= Seq::<KeyAction>::empty());
    } else if a.len() == 4 {
        assert(a.drop_last().drop_last().drop_last() =~= seq![a[0]]);
        assert(seq![a[0]].drop_last() =~= Seq::<KeyAction>::empty());
    } else if a.len() == 3 {
        assert(a.drop_last().drop_last() =~= seq![a[0]]);
        assert(seq![a[0]].drop_last() =~= Seq::<KeyAction>::empty());
    } else if a.len() == 2 {
        assert(a.drop_last() =~= seq![a[0]]);
        assert(seq![a[0]].drop_last() =~= Seq::<KeyAction>::empty());
    } else if a.len() == 1 {
        assert(a.drop_last() =~= Seq::<KeyAction>::empty());
    }
}

/// Every key that the compiled text presses is released again: for each key
/// code, the events hold as many key-downs as key-ups.
pub proof fn lemma_no_key_left_down(layout: Seq<i16>, s: Seq<char>, code: u8)
    ensures
        net_down(events_spec(compile_spec(layout, s)), code) == 0,
    decreases s.len(),
{
    if s.len() > 0 {
        lemma_no_key_left_down(layout, s.drop_last(), code);
        lemma_events_concat(compile_spec(layout, s.drop_last()), char_actions(layout, s.last()));
        lemma_net_down_concat(
            events_spec(compile_spec(layout, s.drop_last())),
            events_spec(char_actions(layout, s.last())),
            code,
        );
        lemma_char_balanced(layout, s.last(), code);
    }
}

/// Whether `c` can be typed with `layout` (else it is skipped).
pub fn is_typeable(c: char, layout: &KeyLayout) -> (r: bool)
    requires
        layout.wf(),
    ensures
        r == (char_actions(layout.scans_spec(), c).len() > 0),
{
    let mut v: Vec<KeyAction> = Vec::new();
    push_char_actions(&mut v, c, layout);
    v.len() > 0
}

fn push_char_actions(actions: &mut Vec<KeyAction>, c: char, layout: &KeyLayout)
    requires
        layout.wf(),
    ensures
        final(actions)@ == old(actions)@ + char_actions(layout.scans_spec(), c),
{
    let ghost a0 = actions@;
    if c == ' ' {
        actions.push(KeyAction::Space);
    } else if c == '\'' {
        actions.push(KeyAction::KeyPress(VK_QUOTE));
        actions.push(KeyAction::KeyRelease(VK_QUOTE));
        actions.push(KeyAction::Space);
    } else if c == '"' {
        actions.push(KeyAction::ShiftPress);
        actions.push(KeyAction::KeyPress(VK_QUOTE));
        actions.push(KeyAction::KeyRelease(VK_QUOTE));
        actions.push(KeyAction::ShiftRelease);
        actions.push(KeyAction::Space);
    } else if (c as u32) < LAYOUT_SIZE as u32 {
        let scan: i16 = layout.scans[c as u32 as usize];
        let k: u8 = (scan & 0xFF) as u8;
        let shift: bool = (scan & 0x100) != 0;
        if scan == -1 || k == 0 {
        } else if shift {
            actions.push(KeyAction::ShiftPress);
            actions.push(KeyAction::KeyPress(k));
            actions.push(KeyAction::KeyRelease(k));
            actions.push(KeyAction::ShiftRelease);
        } else {
            actions.push(KeyAction::KeyPress(k));
            actions.push(KeyAction::KeyRelease(k));
        }
    }
    assert(actions@ =~= a0 + char_actions(layout.scans_spec(), c));
}

/// Compiles `text` into key actions: a space is a space, a quote and a double
/// quote are the quote key (shifted for the double quote) followed by a space
/// (a quirk kept for parity with the observed behaviour of the typing bot; the
/// extra space is likely unintended and worth confirming before relying on it),
/// any other 7-bit character is its key from `layout` (bracketed by shift when
/// the layout says so), and characters without a key are left out.
pub fn build_key_actions(text: &str, layout: &KeyLayout) -> (r: Vec<KeyAction>)
    requires
        layout.wf(),
    ensures
        r@ == compile_spec(layout.scans_spec(), text@),
{
    broadcast use vstd::string::axiom_spec_iter;

    let mut actions: Vec<KeyAction> = Vec::new();
    for c in it: text.chars()
        invariant
            layout.wf(),
            it.seq() == text@,
            actions@ == compile_spec(layout.scans_spec(), text@.take(it.index() as int)),
    {
        let ghost k = it.index() as int;
        assert(text@.take(k + 1).drop_last() =~= text@.take(k));
        push_char_actions(&mut actions, c, layout);
    }
    assert(text@.take(text@.len() as int) =~= text@);
    actions
}

/// The primitive key events, in order, that carry out `actions`.
pub fn key_events(actions: &Vec<KeyAction>) -> (r: Vec<KeyEvent>)
    ensures
        r@ == events_spec(actions@),
{
    let mut events: Vec<KeyEvent> = Vec::new();
    let mut i: usize = 0;
    while i < actions.len()
        invariant
            i <= actions.len(),
            events@ == events_spec(actions@.take(i as int)),
        decreases actions.len() - i,
    {
        let ghost e0 = events@;
        assert(actions@.take(i + 1).drop_last() =~= actions@.take(i as int));
        match actions[i] {
            KeyAction::KeyPress(k) => events.push(KeyEvent { code: k, up: false }),
            KeyAction::KeyRelease(k) => events.push(KeyEvent { code: k, up: true }),
            KeyAction::ShiftPress => events.push(KeyEvent { code: VK_SHIFT, up: false }),
            KeyAction::ShiftRelease => events.push(KeyEvent { code: VK_SHIFT, up: true }),
            KeyAction::Space => {
                events.push(KeyEvent { code: VK_SPACE, up: false });
                events.push(KeyEvent { code: VK_SPACE, up: true });
            },
        }
        assert(events@ =~= e0 + action_events(actions@[i as int]));
        i = i + 1;
    }
    assert(actions@.take(actions.len() as int) =~= actions@);
    events
}

/// Compiling a concatenation compiles each part.
pub proof fn lemma_compile_concat(layout: Seq<i16>, a: Seq<char>, b: Seq<char>)
    ensures
        compile_spec(layout, a + b) == compile_spec(layout, a) + compile_spec(layout, b),
    decreases b.len(),
{
    if b.len() == 0 {
        assert(a + b =~= a);
        assert(compile_spec(layout, a) + compile_spec(layout, b) =~= compile_spec(layout, a));
    } else {
        assert((a + b).drop_last() =~= a + b.drop_last());
        assert((a + b).last() == b.last());
        lemma_compile_concat(layout, a, b.drop_last());
        assert(compile_spec(layout, a + b) =~= compile_spec(layout, a) + compile_spec(layout, b));
    }
}

/// A character that cannot be typed (any character outside the 7-bit set, or
/// one without a key) drops out of the compiled text and leaves the rest as it
/// would be without it.
pub proof fn lemma_untypeable_char_skipped(layout: Seq<i16>, a: Seq<char>, c: char, b: Seq<char>)
    requires
        char_actions(layout, c).len() == 0,
    ensures
        compile_spec(layout, a + seq![c] + b) == compile_spec(layout, a + b),
{
    lemma_compile_concat(layout, a + seq![c], b);
    lemma_compile_concat(layout, a, seq![c]);
    lemma_compile_concat(layout, a, b);
    assert(seq![c].drop_last() =~= Seq::<char>::empty());
    assert(compile_spec(layout, seq![c].drop_last()) =~= Seq::<KeyAction>::empty());
    assert(compile_spec(layout, seq![c]) =~= char_actions(layout, c));
    assert(compile_spec(layout, a + seq![c]) =~= compile_spec(layout, a));
}

/// Characters outside the 7-bit set cannot be typed.
pub proof fn lemma_non_ascii_untypeable(layout: Seq<i16>, c: char)
    requires
        c as u32 >= LAYOUT_SIZE,
    ensures
        char_actions(layout, c).len() == 0,
{
}

} // verus!
