//! Types rendered as HTML, for documentation pages.

use crate::names::{NameModel, TypeName};
use crate::runtime::World;
use crate::text::{replace, replaced};
use crate::types::{fields_view, Field, FieldModel, PrimordialModel, PrimordialType, Type, TypeModel};
use vstd::prelude::*;
use vstd::string::*;

verus! {

/// `text` inside a span.
pub open spec fn span(text: Seq<char>) -> Seq<char> {
    "<span>"@ + text + "</span>"@
}

/// A link to the page of the type `name`. The address is `root` followed by
/// the text of the name with `/` in place of `::`; the text of the link is
/// the text of the name.
pub open spec fn anchor(root: Seq<char>, name: NameModel) -> Seq<char> {
    "<a href='"@ + root + replaced(name.type_str(), "::"@, "/"@) + "'>"@ + name.type_str()
        + "</a>"@
}

/// Whether a type can be rendered: it is made of built-in types, references,
/// objects and joins only.
pub open spec fn renderable(ty: TypeModel) -> bool
    decreases ty, 0nat,
{
    match ty {
        TypeModel::Anything => true,
        TypeModel::Nothing => true,
        TypeModel::Primordial(_) => true,
        TypeModel::Ref(_) => true,
        TypeModel::Object(fields) => renderable_fields(fields, fields.len() as int),
        TypeModel::Join(left, right) => renderable(*left) && renderable(*right),
        _ => false,
    }
}

/// Whether the first `k` fields of an object type can be rendered.
pub open spec fn renderable_fields(fields: Seq<FieldModel>, k: int) -> bool
    decreases fields, k,
{
    if 0 < k <= fields.len() {
        renderable_fields(fields, k - 1) && renderable(fields[k - 1].ty)
    } else {
        true
    }
}

/// The HTML of a type where it is part of another: a reference is a link,
/// everything else is written out.
pub open spec fn html_ty(root: Seq<char>, ty: TypeModel) -> Seq<char>
    decreases ty, 1nat,
{
    match ty {
        TypeModel::Ref(name) => anchor(root, name),
        _ => html_inner(root, ty),
    }
}

/// The HTML of a type, written out. A type that cannot be rendered has
/// none.
pub open spec fn html_inner(root: Seq<char>, ty: TypeModel) -> Seq<char>
    decreases ty, 0nat,
{
    match ty {
        TypeModel::Anything => span("anything"@),
        TypeModel::Nothing => span("nothing"@),
        TypeModel::Primordial(PrimordialModel::Integer) => span("integer"@),
        TypeModel::Primordial(PrimordialModel::Decimal) => span("decimal"@),
        TypeModel::Primordial(PrimordialModel::Boolean) => span("boolean"@),
        TypeModel::Primordial(PrimordialModel::String) => span("string"@),
        TypeModel::Primordial(PrimordialModel::Function(_)) => span("built-in function"@),
        TypeModel::Ref(name) => anchor(root, name),
        TypeModel::Object(fields) => "<div>{"@ + html_fields(root, fields, fields.len() as int)
            + "}</div>"@,
        TypeModel::Join(left, right) => "<span>"@ + html_ty(root, *left) + "||"@ + html_ty(
            root,
            *right,
        ) + "</span>"@,
        _ => Seq::empty(),
    }
}

/// The HTML of the first `k` fields of an object type: for each its name, a
/// colon and its type.
pub open spec fn html_fields(root: Seq<char>, fields: Seq<FieldModel>, k: int) -> Seq<char>
    decreases fields, k,
{
    if 0 < k <= fields.len() {
        html_fields(root, fields, k - 1) + "<div><span>"@ + fields[k - 1].name + ":"@ + html_ty(
            root,
            fields[k - 1].ty,
        ) + "</span></div>"@
    } else {
        Seq::empty()
    }
}

/// Renders the types of a world as HTML. Links lead to addresses under
/// `root`.
pub struct Htmlifier<'w, F> {
    root: String,
    world: &'w World<F>,
}

impl<'w, F> Htmlifier<'w, F> {
    /// The address under which the links of this renderer lead.
    pub closed spec fn root(&self) -> Seq<char> {
        self.root@
    }

    /// A renderer for the types of `world`, with links under `root`.
    pub fn new(root: String, world: &'w World<F>) -> (r: Self)
        ensures
            r.root() == root@,
    {
        Self { root, world }
    }

    /// Tells whether `ty` can be rendered.
    #[verifier::loop_isolation(false)]
    pub fn can_render(ty: &Type) -> (r: bool)
        ensures
            r == renderable(ty@),
        decreases ty,
    {
        match ty {
            Type::Anything => true,
            Type::Nothing => true,
            Type::Primordial(_) => true,
            Type::Ref(_) => true,
            Type::Object(fields) => {
                let mut all = true;
                let mut i: usize = 0;
                while i < fields.len()
                    invariant
                        i <= fields.len(),
                        all == renderable_fields(fields_view(fields@), i as int),
                    decreases fields.len() - i,
                {
                    assert(fields_view(fields@)[i as int].ty == fields@[i as int].ty@);
                    let this = Self::can_render(&fields[i].ty);
                    all = all && this;
                    i += 1;
                }
                all
            },
            Type::Join(left, right) => Self::can_render(left) && Self::can_render(right),
            _ => false,
        }
    }

    /// The HTML of `ty`, written out.
    pub fn html_of(&self, ty: &Type) -> (r: String)
        requires
            renderable(ty@),
        ensures
            r@ == html_inner(self.root(), ty@),
    {
        let mut html = String::new();
        self.html_of_ty_inner(&mut html, ty);
        assert(html@ =~= html_inner(self.root(), ty@));
        html
    }

    /// Appends a link to the page of the type `name`.
    pub fn a(&self, html: &mut String, name: &TypeName)
        ensures
            final(html)@ == old(html)@ + anchor(self.root(), name@),
    {
        let text = name.as_type_str();
        proof {
            reveal_strlit("::");
        }
        let href = replace(text.as_str(), "::", "/");
        html.append("<a href='");
        html.append(self.root.as_str());
        html.append(href.as_str());
        html.append("'>");
        html.append(text.as_str());
        html.append("</a>");
        assert(html@ =~= old(html)@ + anchor(self.root(), name@));
    }

    /// Appends the HTML of `ty` as a part of another type.
    pub fn html_of_ty(&self, html: &mut String, ty: &Type)
        requires
            renderable(ty@),
        ensures
            final(html)@ == old(html)@ + html_ty(self.root(), ty@),
        decreases ty, 1nat,
    {
        match ty.name() {
            Some(name) => self.a(html, &name),
            None => self.html_of_ty_inner(html, ty),
        }
    }

    /// Appends the HTML of `ty`, written out.
    pub fn html_of_ty_inner(&self, html: &mut String, ty: &Type)
        requires
            renderable(ty@),
        ensures
            final(html)@ == old(html)@ + html_inner(self.root(), ty@),
        decreases ty, 0nat,
    {
        match ty {
            Type::Anything => {
                html.append("<span>");
                html.append("anything");
                html.append("</span>");
                assert(html@ =~= old(html)@ + span("anything"@));
            },
            Type::Primordial(primordial) => {
                html.append("<span>");
                match primordial {
                    PrimordialType::Integer => html.append("integer"),
                    PrimordialType::Decimal => html.append("decimal"),
                    PrimordialType::Boolean => html.append("boolean"),
                    PrimordialType::String => html.append("string"),
                    PrimordialType::Function(_) => html.append("built-in function"),
                }
                html.append("</span>");
                assert(html@ =~= old(html)@ + html_inner(self.root(), ty@));
            },
            Type::Ref(name) => self.a(html, name),
            Type::Object(fields) => self.html_of_object(html, fields),
            Type::Join(left, right) => {
                html.append("<span>");
                self.html_of_ty(html, left);
                html.append("||");
                self.html_of_ty(html, right);
                html.append("</span>");
                assert(html@ =~= old(html)@ + html_inner(self.root(), ty@));
            },
            Type::Nothing => {
                html.append("<span>");
                html.append("nothing");
                html.append("</span>");
                assert(html@ =~= old(html)@ + span("nothing"@));
            },
            _ => {},
        }
    }

    /// Appends the HTML of an object type with these fields.
    #[verifier::loop_isolation(false)]
    pub fn html_of_object(&self, html: &mut String, fields: &Vec<Field>)
        requires
            renderable_fields(fields_view(fields@), fields@.len() as int),
        ensures
            final(html)@ == old(html)@ + ("<div>{"@ + html_fields(
                self.root(),
                fields_view(fields@),
                fields@.len() as int,
            ) + "}</div>"@),
        decreases fields, 0nat,
    {
        html.append("<div>");
        html.append("{");
        proof {
            reveal_strlit("<div>");
            reveal_strlit("{");
            reveal_strlit("<div>{");
            assert("<div>"@ + "{"@ =~= "<div>{"@);
        }
        let mut i: usize = 0;
        while i < fields.len()
            invariant
                i <= fields.len(),
                html@ == old(html)@ + "<div>{"@ + html_fields(
                    self.root(),
                    fields_view(fields@),
                    i as int,
                ),
            decreases fields.len() - i,
        {
            let field = &fields[i];
            let ghost before = html@;
            proof {
                lemma_renderable_field(fields_view(fields@), fields@.len() as int, i as int);
                assert(fields_view(fields@)[i as int].ty == field.ty@);
                assert(fields_view(fields@)[i as int].name == field.name@);
                reveal_strlit("<div>");
                reveal_strlit("<span>");
                reveal_strlit("<div><span>");
                reveal_strlit("</span>");
                reveal_strlit("</div>");
                reveal_strlit("</span></div>");
                assert("<div>"@ + "<span>"@ =~= "<div><span>"@);
                assert("</span>"@ + "</div>"@ =~= "</span></div>"@);
            }
            html.append("<div>");
            html.append("<span>");
            html.append(field.name.as_str());
            html.append(":");
            self.html_of_ty(html, &field.ty);
            html.append("</span>");
            html.append("</div>");
            assert(html@ =~= before + "<div><span>"@ + field.name@ + ":"@ + html_ty(
                self.root(),
                field.ty@,
            ) + "</span></div>"@);
            i += 1;
        }
        html.append("}");
        html.append("</div>");
        proof {
            reveal_strlit("}");
            reveal_strlit("</div>");
            reveal_strlit("}</div>");
            assert("}"@ + "</div>"@ =~= "}</div>"@);
        }
    }
}

/// Where the fields of an object type can be rendered, each of them can.
proof fn lemma_renderable_field(fields: Seq<FieldModel>, k: int, i: int)
    requires
        0 <= i < k <= fields.len(),
        renderable_fields(fields, k),
    ensures
        renderable(fields[i].ty),
    decreases k,
{
    if i < k - 1 {
        lemma_renderable_field(fields, k - 1, i);
    }
}

} // verus!
