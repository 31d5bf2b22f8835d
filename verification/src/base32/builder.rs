//! Building an alphabet: declarations of symbols are gathered in a [`Builder`],
//! which is then checked and frozen into a [`Base32Variant`].
use crate::base32::{
    is_symbol, reached_within, Alphabet, Base32Variant, FIRST_SYMBOL, OUT_OF_RANGE, PAD,
};
use vstd::prelude::*;

verus! {

/// The decode entry that declaring `code` for a symbol leaves: the value itself,
/// or none where `code` is no 5-bit value.
pub open spec fn entry(code: u8) -> Option<u8> {
    if code < 32 {
        Some(code)
    } else {
        None
    }
}

/// The symbol whose place in the table of symbols is `id`.
pub open spec fn symbol_at(id: int) -> u8 {
    (FIRST_SYMBOL + id) as u8
}

/// The last of the first `n` slots that holds `symbol`, if any of them does.
pub open spec fn last_slot(chars: Seq<u8>, symbol: u8, n: int) -> Option<u8>
    decreases n,
{
    if n <= 0 {
        None
    } else if chars[n - 1] == symbol {
        Some((n - 1) as u8)
    } else {
        last_slot(chars, symbol, n - 1)
    }
}

/// An alphabet in the making, as a mathematical value.
pub struct Draft {
    /// The label, if one was given.
    pub name: Option<Seq<char>>,
    /// Whether encoded text is to be padded.
    pub padding: bool,
    /// For each 5-bit value the symbol that is written for it, once declared.
    pub forward: Seq<Option<u8>>,
    /// For each symbol, by its place in the table of symbols, the value that it
    /// is read as, once declared.
    pub reverse: Seq<Option<u8>>,
}

impl Draft {
    /// The draft in which nothing is declared.
    pub open spec fn empty() -> Draft {
        Draft {
            name: None,
            padding: false,
            forward: Seq::new(32, |v: int| None),
            reverse: Seq::new(75, |id: int| None),
        }
    }

    /// The tables have their lengths, and hold only symbols and 5-bit values.
    pub open spec fn wf(self) -> bool {
        &&& self.forward.len() == 32
        &&& self.reverse.len() == 75
        &&& forall|v: int|
            0 <= v < 32 && (#[trigger] self.forward[v]) is Some ==> is_symbol(
                self.forward[v].unwrap(),
            )
        &&& forall|id: int|
            0 <= id < 75 && (#[trigger] self.reverse[id]) is Some ==> self.reverse[id].unwrap() < 32
    }

    /// The draft with the label set.
    pub open spec fn with_name(self, name: Seq<char>) -> Draft {
        Draft { name: Some(name), ..self }
    }

    /// The draft with padding switched on or off. Switching it on declares that
    /// the filler is read as the value 0.
    pub open spec fn with_padding(self, padding: bool) -> Draft {
        Draft {
            padding,
            reverse: if padding {
                self.reverse.update(PAD - FIRST_SYMBOL, Some(0u8))
            } else {
                self.reverse
            },
            ..self
        }
    }

    /// The draft after 32 slots are declared, slot `v` for the value `v`. A slot
    /// that holds no symbol declares nothing. The symbol of a slot is read as the
    /// slot's value from now on, and is written for it unless a symbol was
    /// declared for that value before.
    pub open spec fn with_mapping(self, chars: Seq<u8>) -> Draft {
        Draft {
            forward: Seq::new(
                32,
                |v: int|
                    if self.forward[v] is None && is_symbol(chars[v]) {
                        Some(chars[v])
                    } else {
                        self.forward[v]
                    },
            ),
            reverse: Seq::new(
                75,
                |id: int|
                    match last_slot(chars, symbol_at(id), 32) {
                        Some(v) => Some(v),
                        None => self.reverse[id],
                    },
            ),
            ..self
        }
    }

    /// The draft after each of the symbols among `chars` is declared to be read
    /// as `code`. What is written for a value stays as it is.
    pub open spec fn with_aliases(self, chars: Seq<u8>, code: u8) -> Draft {
        Draft {
            reverse: Seq::new(
                75,
                |id: int|
                    if chars.contains(symbol_at(id)) {
                        entry(code)
                    } else {
                        self.reverse[id]
                    },
            ),
            ..self
        }
    }

    /// Whether the draft can be frozen: a symbol is declared for each of the 32
    /// values, and each of the 32 values is what some symbol is read as.
    pub open spec fn complete(self) -> bool {
        &&& forall|v: int| 0 <= v < 32 ==> (#[trigger] self.forward[v]) is Some
        &&& forall|v: int| 0 <= v < 32 ==> #[trigger] reached_within(self.reverse, v, 75)
    }

    /// Whether nothing is wrong at the value `v`: the symbol that is written for
    /// it, if one is declared, is not the filler and is read as `v`.
    pub open spec fn faithful_at(self, v: int) -> bool {
        match self.forward[v] {
            Some(symbol) => symbol != PAD && self.reverse[symbol - FIRST_SYMBOL] == Some(v as u8),
            None => true,
        }
    }

    /// Whether nothing is wrong at any value: see [`Draft::faithful_at`].
    pub open spec fn faithful(self) -> bool {
        forall|v: int| 0 <= v < 32 ==> #[trigger] self.faithful_at(v)
    }

    /// Whether a symbol is declared for each of the 32 values.
    pub open spec fn full(self) -> bool {
        forall|v: int| 0 <= v < 32 ==> (#[trigger] self.forward[v]) is Some
    }

    /// Whether the slots can be declared without harm to what is declared
    /// already: no slot holds the filler, no symbol stands in two slots, and a
    /// symbol that is written for a value stands in no slot but that value's.
    pub open spec fn admits(self, chars: Seq<u8>) -> bool {
        &&& chars.len() == 32
        &&& forall|i: int| 0 <= i < 32 ==> #[trigger] chars[i] != PAD
        &&& forall|i: int, j: int|
            0 <= i < j < 32 && is_symbol(chars[i]) ==> #[trigger] chars[i] != #[trigger] chars[j]
        &&& forall|i: int, v: int|
            0 <= i < 32 && 0 <= v < 32 && v != i && is_symbol(chars[i])
                ==> #[trigger] self.forward[v] != Some(#[trigger] chars[i])
    }

    /// Whether the symbols can be declared to be read as `code` without harm to
    /// what is declared already: none of them is written for another value.
    pub open spec fn admits_aliases(self, chars: Seq<u8>, code: u8) -> bool {
        forall|k: int, v: int|
            0 <= k < chars.len() && 0 <= v < 32 && v != code ==> #[trigger] self.forward[v] != Some(
                #[trigger] chars[k],
            )
    }

    /// The alphabet that a complete draft is frozen into.
    pub open spec fn frozen(self) -> Alphabet {
        Alphabet {
            name: self.name,
            padding: self.padding,
            forward: Seq::new(32, |v: int| self.forward[v].unwrap()),
            reverse: self.reverse,
        }
    }
}

/// Gathers the declarations of an alphabet. Use [`Base32Variant::builder`] to
/// make one.
pub struct Builder<'a> {
    name: Option<&'a str>,
    padding: bool,
    forward: [Option<u8>; 32],
    reverse: [Option<u8>; 75],
}

impl<'a> View for Builder<'a> {
    type V = Draft;

    closed spec fn view(&self) -> Draft {
        Draft {
            name: match self.name {
                Some(name) => Some(name@),
                None => None,
            },
            padding: self.padding,
            forward: self.forward@,
            reverse: self.reverse@,
        }
    }
}

impl<'a> Builder<'a> {
    /// What holds of every builder that exists.
    #[verifier::type_invariant]
    pub open spec fn wf(self) -> bool {
        self@.wf()
    }

    /// The builder in which nothing is declared yet.
    pub(crate) fn new() -> (res: Self)
        ensures
            res@ == Draft::empty(),
    {
        let res = Builder { name: None, padding: false, forward: [None; 32], reverse: [None; 75] };
        proof {
            assert(res@.forward =~= Draft::empty().forward);
            assert(res@.reverse =~= Draft::empty().reverse);
        }
        res
    }

    /// Checks the declarations and freezes them into an alphabet. There is none
    /// unless a symbol is declared for each of the 32 values and each of the 32
    /// values is what some symbol is read as.
    pub fn try_build(self) -> (res: Option<Base32Variant<'a>>)
        ensures
            res is Some <==> self@.complete(),
            res is Some ==> res.unwrap()@ == self@.frozen(),
    {
        proof {
            use_type_invariant(&self);
        }
        let mut forward = [0u8; 32];
        let mut i: usize = 0;
        while i < 32
            invariant
                i <= 32,
                self@.wf(),
                forall|v: int| 0 <= v < i ==> (#[trigger] self@.forward[v]) == Some(forward@[v]),
            decreases 32 - i,
        {
            match self.forward[i] {
                None => {
                    return None;
                },
                Some(ch) => {
                    forward[i] = ch;
                },
            }
            i += 1;
        }
        let mut covered = [false; 32];
        let mut id: usize = 0;
        while id < 75
            invariant
                id <= 75,
                self@.wf(),
                forall|v: int|
                    0 <= v < 32 ==> (#[trigger] covered@[v] <==> reached_within(
                        self@.reverse,
                        v,
                        id as int,
                    )),
            decreases 75 - id,
        {
            match self.reverse[id] {
                Some(byte5) => {
                    covered[byte5 as usize] = true;
                },
                None => {},
            }
            proof {
                assert forall|v: int| 0 <= v < 32 implies (#[trigger] covered@[v] <==> reached_within(
                    self@.reverse,
                    v,
                    id + 1,
                )) by {
                    if reached_within(self@.reverse, v, id as int) {
                        let w = choose|w: int|
                            0 <= w < id && #[trigger] self@.reverse[w] == Some(v as u8);
                        assert(0 <= w < id + 1 && self@.reverse[w] == Some(v as u8));
                    }
                    if self@.reverse[id as int] == Some(v as u8) {
                        assert(reached_within(self@.reverse, v, id + 1));
                    }
                    if reached_within(self@.reverse, v, id + 1) {
                        let w = choose|w: int|
                            0 <= w < id + 1 && #[trigger] self@.reverse[w] == Some(v as u8);
                        if w < id {
                            assert(reached_within(self@.reverse, v, id as int));
                        }
                    }
                }
            }
            id += 1;
        }
        let mut v: usize = 0;
        while v < 32
            invariant
                v <= 32,
                forall|w: int|
                    0 <= w < 32 ==> (#[trigger] covered@[w] <==> reached_within(
                        self@.reverse,
                        w,
                        75,
                    )),
                forall|w: int| 0 <= w < v ==> #[trigger] covered@[w],
            decreases 32 - v,
        {
            if !covered[v] {
                return None;
            }
            v += 1;
        }
        proof {
            assert forall|v: int| 0 <= v < 32 implies #[trigger] reached_within(
                self@.reverse,
                v,
                75,
            ) by {
                assert(covered@[v]);
            }
            assert(forward@ =~= self@.frozen().forward);
        }
        Some(Base32Variant::from_tables(self.name, self.padding, forward, self.reverse))
    }

    /// Freezes the declarations into an alphabet.
    pub fn build(self) -> (res: Base32Variant<'a>)
        requires
            self@.complete(),
        ensures
            res@ == self@.frozen(),
    {
        self.try_build().unwrap()
    }

    /// Sets the label.
    pub fn name(self, name: &'a str) -> (res: Self)
        ensures
            res@ == self@.with_name(name@),
    {
        proof {
            use_type_invariant(&self);
        }
        Builder { name: Some(name), padding: self.padding, forward: self.forward, reverse: self.reverse }
    }

    /// Switches padding on or off. Switching it on declares that the filler is
    /// read as the value 0, so that padded text decodes.
    pub fn padding(self, padding: bool) -> (res: Self)
        ensures
            res@ == self@.with_padding(padding),
    {
        proof {
            use_type_invariant(&self);
        }
        let mut reverse = self.reverse;
        if padding {
            reverse[(PAD - FIRST_SYMBOL) as usize] = Some(0u8);
        }
        Builder { name: self.name, padding, forward: self.forward, reverse }
    }

    /// Declares 32 slots, slot `i` for the value `i`. A slot whose byte is no
    /// symbol declares nothing. The symbol of a slot is read as the value from
    /// now on; it is also what is written for the value, unless an earlier
    /// declaration gave the value a symbol.
    pub fn mapping(self, chars: &[u8; 32]) -> (res: Self)
        ensures
            res@ == self@.with_mapping(chars@),
    {
        proof {
            use_type_invariant(&self);
        }
        let mut forward = self.forward;
        let mut reverse = self.reverse;
        let mut i: u8 = 0;
        while i < 32
            invariant
                i <= 32,
                self@.wf(),
                forward@.len() == 32,
                reverse@.len() == 75,
                forall|v: int|
                    0 <= v < 32 && (#[trigger] forward@[v]) is Some ==> is_symbol(
                        forward@[v].unwrap(),
                    ),
                forall|id: int|
                    0 <= id < 75 && (#[trigger] reverse@[id]) is Some ==> reverse@[id].unwrap() < 32,
                forall|v: int|
                    0 <= v < 32 ==> #[trigger] forward@[v] == if v < i && self@.forward[v] is None
                        && is_symbol(chars@[v]) {
                        Some(chars@[v])
                    } else {
                        self@.forward[v]
                    },
                forall|id: int|
                    0 <= id < 75 ==> #[trigger] reverse@[id] == match last_slot(
                        chars@,
                        symbol_at(id),
                        i as int,
                    ) {
                        Some(v) => Some(v),
                        None => self@.reverse[id],
                    },
            decreases 32 - i,
        {
            let ch = chars[i as usize];
            let id = Base32Variant::get_code_id(ch);
            if id != OUT_OF_RANGE {
                if forward[i as usize].is_none() {
                    forward[i as usize] = Some(ch);
                }
                reverse[id as usize] = Some(i);
            }
            i += 1;
        }
        let res = Builder { name: self.name, padding: self.padding, forward, reverse };
        proof {
            assert(res@.forward =~= self@.with_mapping(chars@).forward);
            assert(res@.reverse =~= self@.with_mapping(chars@).reverse);
        }
        res
    }

    /// Declares that each symbol among `chars` is read as `code`. A byte that is
    /// no symbol declares nothing, and what is written for a value stays as it
    /// is. A `code` of 32 or more is no value: the symbols are then read as
    /// nothing.
    pub fn map_chars(self, chars: &[u8], code: u8) -> (res: Self)
        ensures
            res@ == self@.with_aliases(chars@, code),
    {
        proof {
            use_type_invariant(&self);
        }
        let mut reverse = self.reverse;
        let mut i: usize = 0;
        while i < chars.len()
            invariant
                i <= chars@.len(),
                self@.wf(),
                reverse@.len() == 75,
                forall|id: int|
                    0 <= id < 75 ==> #[trigger] reverse@[id] == if chars@.take(i as int).contains(
                        symbol_at(id),
                    ) {
                        entry(code)
                    } else {
                        self@.reverse[id]
                    },
            decreases chars@.len() - i,
        {
            let ch = chars[i];
            let id = Base32Variant::get_code_id(ch);
            if id != OUT_OF_RANGE {
                reverse[id as usize] = if code < 32 {
                    Some(code)
                } else {
                    None
                };
            }
            proof {
                let before = chars@.take(i as int);
                let after = chars@.take(i + 1);
                assert(after =~= before.push(ch));
                assert forall|id: int| 0 <= id < 75 implies (after.contains(symbol_at(id))
                    <==> before.contains(symbol_at(id)) || ch == symbol_at(id)) by {
                    if before.contains(symbol_at(id)) {
                        let w = choose|w: int| 0 <= w < before.len() && before[w] == symbol_at(id);
                        assert(after[w] == symbol_at(id));
                    }
                    if ch == symbol_at(id) {
                        assert(after[i as int] == symbol_at(id));
                    }
                }
            }
            i += 1;
        }
        proof {
            assert forall|id: int| 0 <= id < 75 && (#[trigger] reverse@[id]) is Some implies reverse@[id].unwrap()
                < 32 by {
                assert(self@.reverse[id] is Some ==> self@.reverse[id].unwrap() < 32);
            }
        }
        let res = Builder { name: self.name, padding: self.padding, forward: self.forward, reverse };
        proof {
            assert(chars@.take(i as int) =~= chars@);
            assert(res@.reverse =~= self@.with_aliases(chars@, code).reverse);
        }
        res
    }
}

/// The last slot that holds a symbol is a slot that holds it.
pub proof fn lemma_last_slot_holds(chars: Seq<u8>, symbol: u8, n: int)
    requires
        n <= 256,
    ensures
        last_slot(chars, symbol, n) matches Some(v) ==> v < n && chars[v as int] == symbol,
    decreases n,
{
    if n > 0 && chars[n - 1] != symbol {
        lemma_last_slot_holds(chars, symbol, n - 1);
    }
}

/// A slot that holds a symbol which no later slot holds is the last that holds
/// it.
pub proof fn lemma_last_slot_found(chars: Seq<u8>, symbol: u8, n: int, v: int)
    requires
        0 <= v < n <= 256,
        chars[v] == symbol,
        forall|j: int| v < j < n ==> chars[j] != symbol,
    ensures
        last_slot(chars, symbol, n) == Some(v as u8),
    decreases n,
{
    if n - 1 != v {
        lemma_last_slot_found(chars, symbol, n - 1, v);
    }
}

/// Nothing is wrong in the draft in which nothing is declared.
pub proof fn lemma_empty_faithful()
    ensures
        Draft::empty().wf(),
        Draft::empty().faithful(),
{
    assert forall|v: int| 0 <= v < 32 implies #[trigger] Draft::empty().faithful_at(v) by {}
}

/// Declaring slots that a faithful draft admits leaves it faithful; a symbol is
/// then declared for each value for which one was declared or whose slot holds
/// one.
pub proof fn lemma_mapping_faithful(d: Draft, chars: Seq<u8>)
    requires
        d.wf(),
        d.faithful(),
        d.admits(chars),
    ensures
        d.with_mapping(chars).wf(),
        d.with_mapping(chars).faithful(),
        forall|v: int|
            0 <= v < 32 && (d.forward[v] is Some || is_symbol(chars[v])) ==> (#[trigger] d.with_mapping(
                chars,
            ).forward[v]) is Some,
{
    let e = d.with_mapping(chars);
    assert forall|id: int| 0 <= id < 75 && (#[trigger] e.reverse[id]) is Some implies e.reverse[id].unwrap()
        < 32 by {
        lemma_last_slot_holds(chars, symbol_at(id), 32);
        assert(d.reverse[id] is Some ==> d.reverse[id].unwrap() < 32);
    }
    assert forall|v: int| 0 <= v < 32 && (#[trigger] e.forward[v]) is Some implies is_symbol(
        e.forward[v].unwrap(),
    ) by {
        assert(d.forward[v] is Some ==> is_symbol(d.forward[v].unwrap()));
    }
    assert forall|v: int| 0 <= v < 32 implies #[trigger] e.faithful_at(v) by {
        if e.forward[v] is Some {
            let symbol = e.forward[v].unwrap();
            let id = symbol - FIRST_SYMBOL;
            assert(is_symbol(symbol));
            assert(symbol_at(id) == symbol);
            lemma_last_slot_holds(chars, symbol, 32);
            if d.forward[v] is None {
                assert(chars[v] == symbol);
                assert forall|j: int| v < j < 32 implies chars[j] != symbol by {
                    assert(chars[v] != chars[j]);
                }
                lemma_last_slot_found(chars, symbol, 32, v);
            } else {
                assert(d.faithful_at(v));
                if last_slot(chars, symbol, 32) is Some {
                    let i = last_slot(chars, symbol, 32).unwrap();
                    assert(chars[i as int] == symbol);
                    if i != v {
                        assert(d.forward[v] != Some(chars[i as int]));
                    }
                }
            }
        }
    }
}

/// Declaring symbols that a faithful draft admits as aliases leaves it
/// faithful, and declares no symbol for a value.
pub proof fn lemma_aliases_faithful(d: Draft, chars: Seq<u8>, code: u8)
    requires
        d.wf(),
        d.faithful(),
        d.admits_aliases(chars, code),
    ensures
        d.with_aliases(chars, code).wf(),
        d.with_aliases(chars, code).faithful(),
        d.with_aliases(chars, code).forward == d.forward,
{
    let e = d.with_aliases(chars, code);
    assert forall|id: int| 0 <= id < 75 && (#[trigger] e.reverse[id]) is Some implies e.reverse[id].unwrap()
        < 32 by {
        assert(d.reverse[id] is Some ==> d.reverse[id].unwrap() < 32);
    }
    assert forall|v: int| 0 <= v < 32 implies #[trigger] e.faithful_at(v) by {
        assert(d.faithful_at(v));
        if d.forward[v] is Some {
            let symbol = d.forward[v].unwrap();
            let id = symbol - FIRST_SYMBOL;
            assert(is_symbol(symbol));
            assert(symbol_at(id) == symbol);
            if chars.contains(symbol) {
                let k = choose|k: int| 0 <= k < chars.len() && chars[k] == symbol;
                assert(d.forward[v] == Some(chars[k]));
            }
        }
    }
}

/// Giving a draft a label leaves it faithful.
pub proof fn lemma_name_faithful(d: Draft, name: Seq<char>)
    requires
        d.wf(),
        d.faithful(),
    ensures
        d.with_name(name).wf(),
        d.with_name(name).faithful(),
{
    let e = d.with_name(name);
    assert forall|v: int| 0 <= v < 32 implies #[trigger] e.faithful_at(v) by {
        assert(d.faithful_at(v));
    }
}

/// Switching the padding of a draft on or off leaves it faithful.
pub proof fn lemma_padding_faithful(d: Draft, padding: bool)
    requires
        d.wf(),
        d.faithful(),
    ensures
        d.with_padding(padding).wf(),
        d.with_padding(padding).faithful(),
{
    let e = d.with_padding(padding);
    assert forall|v: int| 0 <= v < 32 implies #[trigger] e.faithful_at(v) by {
        assert(d.faithful_at(v));
        assert(d.forward[v] is Some ==> is_symbol(d.forward[v].unwrap()));
    }
}

/// A faithful draft in which a symbol is declared for each value is complete,
/// and the alphabet that it is frozen into loses nothing, if with padding the
/// filler is read as some value.
pub proof fn lemma_faithful_is_complete(d: Draft)
    requires
        d.wf(),
        d.faithful(),
        d.full(),
    ensures
        d.complete(),
        d.frozen().valid(),
        !d.padding || d.reverse[PAD - FIRST_SYMBOL] is Some ==> d.frozen().lossless(),
{
    assert forall|v: int| 0 <= v < 32 implies #[trigger] reached_within(d.reverse, v, 75) by {
        assert(d.faithful_at(v));
        assert(d.forward[v] is Some);
        assert(is_symbol(d.forward[v].unwrap()));
        assert(d.reverse[d.forward[v].unwrap() - FIRST_SYMBOL] == Some(v as u8));
    }
    let a = d.frozen();
    assert forall|v: int| 0 <= v < 32 implies is_symbol(#[trigger] a.forward[v]) && a.forward[v]
        != PAD && a.value_of(a.forward[v]) == Some(v as u8) by {
        assert(d.faithful_at(v));
        assert(d.forward[v] is Some);
        assert(is_symbol(d.forward[v].unwrap()));
    }
}

} // verus!
