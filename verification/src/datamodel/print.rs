//! Print offers of the store: variants, prices and print descriptions.
use vstd::prelude::*;
use crate::strmap::StrMap;

verus! {

/// A price in a currency.
#[derive(Debug)]
pub struct Price {
    pub value: u32,
    pub cur: String,
}

impl Clone for Price {
    fn clone(&self) -> (r: Self)
        ensures
            r == *self,
    {
        Price { value: self.value, cur: self.cur.clone() }
    }
}

/// A print format: its price and its size in centimetres.
#[derive(Debug)]
pub struct Variant {
    pub price: Price,
    pub width: u32,
    pub height: u32,
}

impl Clone for Variant {
    fn clone(&self) -> (r: Self)
        ensures
            r == *self,
    {
        Variant { price: self.price.clone(), width: self.width, height: self.height }
    }
}

/// A print as written in the store's configuration.
#[derive(Debug)]
pub struct PrintRaw {
    pub name: String,
    pub variants: Vec<String>,
    pub description: Vec<String>,
    pub brief: String,
}

/// A print as the store serves it.
#[derive(Debug)]
pub struct PrintCompiled {
    pub name: String,
    pub variants: Vec<String>,
    pub description: String,
    pub id: String,
    pub brief: String,
}

/// The abstract value of a compiled print.
pub struct PrintCompiledView {
    pub name: Seq<char>,
    pub variants: Seq<Seq<char>>,
    pub description: Seq<char>,
    pub id: Seq<char>,
    pub brief: Seq<char>,
}

impl View for PrintCompiled {
    type V = PrintCompiledView;

    open spec fn view(&self) -> PrintCompiledView {
        PrintCompiledView {
            name: self.name@,
            variants: self.variants.deep_view(),
            description: self.description@,
            id: self.id@,
            brief: self.brief@,
        }
    }
}

/// A copy of a list of strings.
pub fn clone_strings(v: &Vec<String>) -> (r: Vec<String>)
    ensures
        r@ == v@,
        r.deep_view() == v.deep_view(),
{
    let mut r: Vec<String> = Vec::new();
    let mut i: usize = 0;
    while i < v.len()
        invariant
            i <= v@.len(),
            r@ == v@.take(i as int),
        decreases v@.len() - i,
    {
        r.push(v[i].clone());
        i = i + 1;
        assert(r@ =~= v@.take(i as int));
    }
    assert(r@ =~= v@);
    assert(r.deep_view() =~= v.deep_view());
    r
}

impl Clone for PrintCompiled {
    fn clone(&self) -> (r: Self)
        ensures
            r@ == self@,
    {
        PrintCompiled {
            name: self.name.clone(),
            variants: clone_strings(&self.variants),
            description: self.description.clone(),
            id: self.id.clone(),
            brief: self.brief.clone(),
        }
    }
}

/// The print offers: the variant table and, per category, its prints.
#[derive(Debug)]
pub struct PrintDefinition<PrintType> {
    pub variants: StrMap<Variant>,
    pub prints: StrMap<Vec<PrintType>>,
}

impl<PrintType> PrintDefinition<PrintType> {
    /// No variants and no prints.
    pub fn new() -> (r: Self)
        ensures
            r.variants@ == Map::<Seq<char>, Variant>::empty(),
            r.prints.items() == Seq::<(Seq<char>, Vec<PrintType>)>::empty(),
    {
        PrintDefinition { variants: StrMap::new(), prints: StrMap::new() }
    }
}

/// The prints of all categories, category after category, in order.
pub open spec fn all_prints<P>(cats: Seq<(Seq<char>, Vec<P>)>) -> Seq<P>
    decreases cats.len(),
{
    if cats.len() == 0 {
        Seq::empty()
    } else {
        all_prints(cats.drop_last()) + cats.last().1@
    }
}

} // verus!
