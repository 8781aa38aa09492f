use crate::ids::Symbol;
use vstd::prelude::*;
use vstd::string::StringExecFns;

verus! {

/// The names behind a program's symbols.
#[derive(Debug)]
pub struct Interner {
    names: Vec<String>,
}

impl View for Interner {
    type V = Seq<Seq<char>>;

    closed spec fn view(&self) -> Seq<Seq<char>> {
        Seq::new(self.names@.len(), |i: int| self.names@[i]@)
    }
}

/// What a symbol stands for, if it stands for anything.
pub open spec fn symbol_name(names: Seq<Seq<char>>, symbol: Symbol) -> Option<Seq<char>> {
    if (symbol.0 as int) < names.len() {
        Some(names[symbol.0 as int])
    } else {
        None
    }
}

impl Interner {
    /// No names yet.
    pub fn new() -> (r: Interner)
        ensures
            r@ == Seq::<Seq<char>>::empty(),
    {
        let r = Interner { names: Vec::new() };
        assert(r@ =~= Seq::<Seq<char>>::empty());
        r
    }

    /// The symbol for `name`: the first one already standing for it, or
    /// else a new one.
    pub fn intern(&mut self, name: &str) -> (r: Symbol)
        requires
            old(self)@.len() <= u32::MAX,
        ensures
            symbol_name(final(self)@, r) == Some(name@),
            forall|i: int| 0 <= i < r.0 ==> #[trigger] final(self)@[i] != name@,
            final(self)@ == if old(self)@.contains(name@) {
                old(self)@
            } else {
                old(self)@.push(name@)
            },
    {
        let wanted = name.to_owned();
        let mut i: usize = 0;
        while i < self.names.len()
            invariant
                i <= self.names@.len(),
                *self == *old(self),
                wanted@ == name@,
                self.names@.len() <= u32::MAX,
                forall|j: int| 0 <= j < i ==> #[trigger] self@[j] != name@,
            decreases self.names@.len() - i,
        {
            if self.names[i] == wanted {
                assert(self@[i as int] == name@);
                return Symbol(i as u32);
            }
            i = i + 1;
        }
        let ghost before = self@;
        let n: u32 = self.names.len() as u32;
        self.names.push(wanted);
        assert(self@ =~= before.push(name@));
        Symbol(n)
    }

    /// The name `symbol` stands for.
    pub fn resolve(&self, symbol: Symbol) -> (r: Option<&str>)
        ensures
            match r {
                Some(name) => symbol_name(self@, symbol) == Some(name@),
                None => symbol_name(self@, symbol) is None,
            },
    {
        if (symbol.0 as usize) < self.names.len() {
            Some(self.names[symbol.0 as usize].as_str())
        } else {
            None
        }
    }
}

} // verus!
