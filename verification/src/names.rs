//! Package paths and type names.
//!
//! A package path is a sequence of segments. A type name is a leaf, alone or
//! with the package that it lives in; the text of a name, its segments joined
//! by `::`, is the key under which a world holds it.

use crate::text::{chars_of, copy_strings, join, joined, same_strings, texts};
use vstd::prelude::*;
use vstd::string::*;

verus! {

/// A character that ends a segment in a path declaration.
pub open spec fn is_separator(c: char) -> bool {
    c == ':' || c == '/'
}

/// What is known after the first `k` characters of a path declaration: the
/// segments that are complete, and the characters of the one that is open.
pub open spec fn split_upto(text: Seq<char>, k: int) -> (Seq<Seq<char>>, Seq<char>)
    decreases k,
{
    if k <= 0 {
        (Seq::empty(), Seq::empty())
    } else {
        let (done, open) = split_upto(text, k - 1);
        if !is_separator(text[k - 1]) {
            (done, open.push(text[k - 1]))
        } else if open.len() > 0 {
            (done.push(open), Seq::empty())
        } else {
            (done, open)
        }
    }
}

/// The segments of a path declaration: its longest runs of characters that
/// hold neither `:` nor `/`, in order.
pub open spec fn segments_of(text: Seq<char>) -> Seq<Seq<char>> {
    let (done, open) = split_upto(text, text.len() as int);
    if open.len() > 0 {
        done.push(open)
    } else {
        done
    }
}

/// The path of a package: its segments, outermost first. The empty path is
/// the root package.
#[derive(Debug, PartialEq, Eq, Hash)]
pub struct PackagePath {
    pub segments: Vec<String>,
}

impl View for PackagePath {
    type V = Seq<Seq<char>>;

    open spec fn view(&self) -> Seq<Seq<char>> {
        texts(self.segments@)
    }
}

impl Clone for PackagePath {
    fn clone(&self) -> (r: Self)
        ensures
            r@ == self@,
    {
        PackagePath { segments: copy_strings(&self.segments) }
    }
}

impl PackagePath {
    /// The root package.
    pub fn root() -> (r: Self)
        ensures
            r@ == Seq::<Seq<char>>::empty(),
    {
        let r = PackagePath { segments: Vec::new() };
        assert(r@ =~= Seq::<Seq<char>>::empty());
        r
    }

    /// The package that a path declaration names. Segments are separated by
    /// `::` or `/`; empty segments are dropped, so the empty declaration names
    /// the root package.
    pub fn from(source: &str) -> (r: Self)
        ensures
            r@ == segments_of(source@),
    {
        let all = chars_of(source);
        let n = all.len();
        let mut segments: Vec<String> = Vec::new();
        let mut start: usize = 0;
        let mut i: usize = 0;
        assert(source@.subrange(0, 0) =~= Seq::<char>::empty());
        assert(texts(segments@) =~= Seq::<Seq<char>>::empty());
        while i < n
            invariant
                n == source@.len(),
                all@ == source@,
                start <= i <= n,
                split_upto(source@, i as int) == (
                    texts(segments@),
                    source@.subrange(start as int, i as int),
                ),
            decreases n - i,
        {
            let c = all[i];
            let ghost before = texts(segments@);
            if c == ':' || c == '/' {
                if start < i {
                    let piece = source.substring_char(start, i);
                    segments.push(String::from_str(piece));
                    assert(texts(segments@) =~= before.push(
                        source@.subrange(start as int, i as int),
                    ));
                }
                start = i + 1;
                assert(source@.subrange(start as int, i + 1) =~= Seq::<char>::empty());
            } else {
                assert(source@.subrange(start as int, i + 1) =~= source@.subrange(
                    start as int,
                    i as int,
                ).push(source@[i as int]));
            }
            i += 1;
        }
        if start < n {
            let ghost before = texts(segments@);
            let piece = source.substring_char(start, n);
            segments.push(String::from_str(piece));
            assert(texts(segments@) =~= before.push(source@.subrange(start as int, n as int)));
        }
        PackagePath { segments }
    }

    /// The name of the type `leaf` of this package.
    pub fn name_for(&self, leaf: String) -> (r: TypeName)
        ensures
            r@ == (NameModel { package: Some(self@), name: leaf@ }),
    {
        TypeName { package: Some(self.clone()), name: leaf }
    }

    /// The segments joined by `::`.
    pub fn as_package_str(&self) -> (r: String)
        ensures
            r@ == joined(self@, "::"@),
    {
        join(&self.segments, "::")
    }

    /// Tells whether both paths hold the same segments.
    pub fn same(&self, other: &PackagePath) -> (r: bool)
        ensures
            r == (self@ == other@),
    {
        same_strings(&self.segments, &other.segments)
    }
}

/// What a type name holds: the leaf, and the segments of its package if it
/// has one.
pub struct NameModel {
    pub package: Option<Seq<Seq<char>>>,
    pub name: Seq<char>,
}

impl NameModel {
    /// A name is qualified when it says which package it lives in.
    pub open spec fn is_qualified(self) -> bool {
        self.package is Some
    }

    /// The text of the name: the segments of its package, then the leaf,
    /// joined by `::`.
    pub open spec fn type_str(self) -> Seq<char> {
        match self.package {
            Some(package) => joined(package.push(self.name), "::"@),
            None => self.name,
        }
    }
}

/// The name of a type: a bare leaf, or a leaf with its package.
#[derive(Debug, PartialEq, Eq, Hash)]
pub struct TypeName {
    pub package: Option<PackagePath>,
    pub name: String,
}

impl View for TypeName {
    type V = NameModel;

    open spec fn view(&self) -> NameModel {
        NameModel {
            package: match self.package {
                Some(package) => Some(package@),
                None => None,
            },
            name: self.name@,
        }
    }
}

impl Clone for TypeName {
    fn clone(&self) -> (r: Self)
        ensures
            r@ == self@,
    {
        let package = match &self.package {
            Some(package) => Some(package.clone()),
            None => None,
        };
        TypeName { package, name: self.name.clone() }
    }
}

impl TypeName {
    /// The name made of `package` and `name`.
    pub fn new(package: Option<PackagePath>, name: String) -> (r: Self)
        ensures
            r.package == package,
            r.name == name,
    {
        TypeName { package, name }
    }

    /// Tells whether the name says which package it lives in.
    pub fn is_qualified(&self) -> (r: bool)
        ensures
            r == self@.is_qualified(),
    {
        self.package.is_some()
    }

    /// The leaf of the name.
    pub fn name(&self) -> (r: String)
        ensures
            r@ == self@.name,
    {
        self.name.clone()
    }

    /// The text of the name, which is its key in a world.
    pub fn as_type_str(&self) -> (r: String)
        ensures
            r@ == self@.type_str(),
    {
        match &self.package {
            Some(package) => {
                let mut out = package.as_package_str();
                if package.segments.len() > 0 {
                    out.append("::");
                }
                out.append(self.name.as_str());
                proof {
                    let parts = package@.push(self.name@);
                    assert(parts.drop_last() =~= package@);
                    if package@.len() == 0 {
                        assert(joined(package@, "::"@) =~= Seq::<char>::empty());
                        assert(out@ =~= self.name@);
                    }
                }
                out
            },
            None => self.name.clone(),
        }
    }

    /// Tells whether both names hold the same package and the same leaf.
    pub fn same(&self, other: &TypeName) -> (r: bool)
        ensures
            r == (self@ == other@),
    {
        let packages = match (&self.package, &other.package) {
            (Some(left), Some(right)) => left.same(right),
            (None, None) => true,
            _ => false,
        };
        packages && self.name == other.name
    }
}

} // verus!
