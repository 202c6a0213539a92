//! Generating the source text that defines the node types of a tree.
//!
//! A node type is described in one line, `Name = field: Type, field: Type`.
//! The generated text holds a struct for each description, and the traits
//! through which such nodes are visited.

use vstd::prelude::*;

verus! {

/// White space, as Unicode defines it.
pub open spec fn is_whitespace(c: char) -> bool {
    ('\u{9}' <= c && c <= '\u{d}') || c == ' ' || c == '\u{85}' || c == '\u{a0}' || c == '\u{1680}'
        || ('\u{2000}' <= c && c <= '\u{200a}') || c == '\u{2028}' || c == '\u{2029}' || c
        == '\u{202f}' || c == '\u{205f}' || c == '\u{3000}'
}

/// The first position at or after `pos` that holds no white space.
pub open spec fn skip_space(text: Seq<char>, pos: int) -> int
    decreases text.len() - pos,
{
    if 0 <= pos < text.len() && is_whitespace(text[pos]) {
        skip_space(text, pos + 1)
    } else {
        pos
    }
}

/// The last position at or before `end`, and not before `from`, that has no
/// white space just before it.
pub open spec fn drop_space(text: Seq<char>, from: int, end: int) -> int
    decreases end,
{
    if 0 <= from < end <= text.len() && is_whitespace(text[end - 1]) {
        drop_space(text, from, end - 1)
    } else {
        end
    }
}

/// The text without the white space at its beginning and at its end.
pub open spec fn trimmed(text: Seq<char>) -> Seq<char> {
    let from = skip_space(text, 0);
    text.subrange(from, drop_space(text, from, text.len() as int))
}

/// The first position at or after `pos` that holds the character `c`; the
/// length of the text if there is none.
pub open spec fn find(text: Seq<char>, c: char, pos: int) -> int
    decreases text.len() - pos,
{
    if 0 <= pos < text.len() && text[pos] != c {
        find(text, c, pos + 1)
    } else {
        pos
    }
}

/// The pieces of the text from `from` on that the separator parts.
pub open spec fn split_from(text: Seq<char>, separator: char, from: int) -> Seq<Seq<char>>
    decreases text.len() - from,
{
    let at = find(text, separator, from);
    if 0 <= from <= at < text.len() {
        seq![text.subrange(from, at)] + split_from(text, separator, at + 1)
    } else {
        seq![text.subrange(from, text.len() as int)]
    }
}

/// The pieces of the text that the separator parts: one more than there are
/// separators.
pub open spec fn split(text: Seq<char>, separator: char) -> Seq<Seq<char>> {
    split_from(text, separator, 0)
}

/// The name of the node type that a description describes: what stands
/// before the first `=`.
pub open spec fn name_of(description: Seq<char>) -> Seq<char> {
    trimmed(split(description, '=')[0])
}

/// The fields of the node type that a description describes: what stands
/// behind the first `=`, up to the next one.
pub open spec fn fields_of(description: Seq<char>) -> Seq<char> {
    trimmed(split(description, '=')[1])
}

/// Whether a description has a name and fields.
pub open spec fn is_description(description: Seq<char>) -> bool {
    find(description, '=', 0) < description.len()
}

/// The lines that declare the given fields.
pub open spec fn field_lines(fields: Seq<Seq<char>>) -> Seq<char>
    decreases fields.len(),
{
    if fields.len() == 0 {
        Seq::empty()
    } else {
        field_lines(fields.drop_last()) + "    pub "@ + trimmed(fields.last()) + ",\n"@
    }
}

/// The definition of the struct with the given name and fields.
pub open spec fn type_text(name: Seq<char>, fields: Seq<char>) -> Seq<char> {
    "pub struct "@ + name + " {\n"@ + field_lines(split(fields, ',')) + "}\n\n"@
}

/// The line that declares the operation of a visitor for a node type.
pub open spec fn visit_line(name: Seq<char>) -> Seq<char> {
    "    fn visit"@ + name + "Expr(&self, expr: &"@ + name + ") -> &str;\n"@
}

/// The lines that declare the operations of a visitor.
pub open spec fn visit_lines(descriptions: Seq<Seq<char>>) -> Seq<char>
    decreases descriptions.len(),
{
    if descriptions.len() == 0 {
        Seq::empty()
    } else {
        visit_lines(descriptions.drop_last()) + visit_line(name_of(descriptions.last()))
    }
}

/// The lines by which a node type accepts a visitor.
pub open spec fn accept_text(name: Seq<char>) -> Seq<char> {
    "impl Expr for "@ + name
        + " {\nfn accept(&self, visitor: Box<dyn Visitor>) -> &'static str {return visitor.visit"@
        + name + "Expr(&self);}\n}\n\n"@
}

/// The definitions of the node types.
pub open spec fn type_texts(descriptions: Seq<Seq<char>>) -> Seq<char>
    decreases descriptions.len(),
{
    if descriptions.len() == 0 {
        Seq::empty()
    } else {
        let last = descriptions.last();
        type_texts(descriptions.drop_last()) + type_text(name_of(last), fields_of(last))
            + accept_text(name_of(last))
    }
}

/// The beginning of the generated text.
pub open spec fn preamble() -> Seq<char> {
    "use crate::lexical_analysis::Token;\n"@ + "#[derive(Copy)]\npub trait Expr {\n"@
        + "    fn accept(&self, visitor: Box<dyn Visitor>) -> &str;\n}\n\n"@
}

/// The text that defines the node types of the given descriptions.
pub open spec fn ast_text(descriptions: Seq<Seq<char>>) -> Seq<char> {
    preamble() + "pub trait Visitor {\n"@ + visit_lines(descriptions) + "}\n"@ + type_texts(
        descriptions,
    )
}

/// The descriptions of the node types of an expression.
pub open spec fn expression_types() -> Seq<Seq<char>> {
    seq![
        "Binary = left: Box<dyn Expr>, operator: Token, right: Box<dyn Expr>"@,
        "Grouping = expression: Box<dyn Expr>"@,
        "Literal = value: String"@,
        "Unary = operator: Token, right: Box<dyn Expr>"@,
    ]
}

/// The views of some texts, in order.
pub open spec fn text_views(texts: Seq<String>) -> Seq<Seq<char>> {
    Seq::new(texts.len(), |i: int| texts[i]@)
}

/// The views of some texts, in order.
pub open spec fn str_views(texts: Seq<&str>) -> Seq<Seq<char>> {
    Seq::new(texts.len(), |i: int| texts[i]@)
}

/// Where `find` points, within the text or at its end.
proof fn lemma_find_bounds(text: Seq<char>, c: char, pos: int)
    requires
        0 <= pos <= text.len(),
    ensures
        pos <= find(text, c, pos) <= text.len(),
    decreases text.len() - pos,
{
    if pos < text.len() && text[pos] != c {
        lemma_find_bounds(text, c, pos + 1);
    }
}

/// A text is split into at least one piece, and into at least two if it
/// holds the separator.
proof fn lemma_split_len(text: Seq<char>, separator: char, from: int)
    requires
        0 <= from <= text.len(),
    ensures
        split_from(text, separator, from).len() >= 1,
        find(text, separator, from) < text.len() ==> split_from(text, separator, from).len() >= 2,
{
    let at = find(text, separator, from);
    lemma_find_bounds(text, separator, from);
    if at < text.len() {
        let rest = split_from(text, separator, at + 1);
        lemma_find_bounds(text, separator, at + 1);
        assert(rest.len() >= 1);
    }
}

/// Whether a character is white space.
pub fn whitespace(c: char) -> (space: bool)
    ensures
        space == is_whitespace(c),
{
    ('\u{9}' <= c && c <= '\u{d}') || c == ' ' || c == '\u{85}' || c == '\u{a0}' || c == '\u{1680}'
        || ('\u{2000}' <= c && c <= '\u{200a}') || c == '\u{2028}' || c == '\u{2029}' || c
        == '\u{202f}' || c == '\u{205f}' || c == '\u{3000}'
}

/// The text without the white space at its beginning and at its end.
pub fn trim(text: &str) -> (trimmed_text: String)
    ensures
        trimmed_text@ == trimmed(text@),
{
    let len = text.unicode_len();
    let mut from: usize = 0;
    while from < len && whitespace(text.get_char(from))
        invariant
            from <= len == text@.len(),
            skip_space(text@, from as int) == skip_space(text@, 0),
        decreases len - from,
    {
        from += 1;
    }
    let mut end: usize = len;
    while from < end && whitespace(text.get_char(end - 1))
        invariant
            from <= end <= len == text@.len(),
            drop_space(text@, from as int, end as int) == drop_space(
                text@,
                from as int,
                len as int,
            ),
        decreases end,
    {
        end -= 1;
    }
    text.substring_char(from, end).to_owned()
}

/// The pieces of the text that the separator parts.
pub fn split_text(text: &str, separator: char) -> (pieces: Vec<String>)
    ensures
        text_views(pieces@) == split(text@, separator),
{
    let len = text.unicode_len();
    let mut pieces: Vec<String> = Vec::new();
    let mut from: usize = 0;
    let mut at: usize = 0;
    assert(text_views(pieces@) + split_from(text@, separator, 0) =~= split(text@, separator));
    while at < len
        invariant
            from <= at <= len == text@.len(),
            find(text@, separator, at as int) == find(text@, separator, from as int),
            text_views(pieces@) + split_from(text@, separator, from as int) == split(
                text@,
                separator,
            ),
        decreases len - at,
    {
        if text.get_char(at) == separator {
            let piece = text.substring_char(from, at).to_owned();
            proof {
                let rest = split_from(text@, separator, at + 1);
                assert(text_views(pieces@.push(piece)) =~= text_views(pieces@).push(piece@));
                assert(text_views(pieces@).push(piece@) + rest =~= text_views(pieces@)
                    + (seq![piece@] + rest));
            }
            pieces.push(piece);
            from = at + 1;
        }
        at += 1;
    }
    let piece = text.substring_char(from, len).to_owned();
    proof {
        assert(text_views(pieces@.push(piece)) =~= text_views(pieces@).push(piece@));
        assert(text_views(pieces@).push(piece@) =~= text_views(pieces@) + seq![piece@]);
    }
    pieces.push(piece);
    pieces
}

/// The text that defines the node types of an expression, and the traits
/// through which they are visited.
pub fn generate_ast() -> (text: String)
    ensures
        text@ == ast_text(expression_types()),
{
    let types = vec![
        "Binary = left: Box<dyn Expr>, operator: Token, right: Box<dyn Expr>",
        "Grouping = expression: Box<dyn Expr>",
        "Literal = value: String",
        "Unary = operator: Token, right: Box<dyn Expr>",
    ];
    proof {
        reveal_strlit("Binary = left: Box<dyn Expr>, operator: Token, right: Box<dyn Expr>");
        reveal_strlit("Grouping = expression: Box<dyn Expr>");
        reveal_strlit("Literal = value: String");
        reveal_strlit("Unary = operator: Token, right: Box<dyn Expr>");
        assert(str_views(types@) =~= expression_types());
        assert(find(types@[0]@, '=', 0) == 7) by {
            reveal_with_fuel(find, 8);
        }
        assert(find(types@[1]@, '=', 0) == 9) by {
            reveal_with_fuel(find, 10);
        }
        assert(find(types@[2]@, '=', 0) == 8) by {
            reveal_with_fuel(find, 9);
        }
        assert(find(types@[3]@, '=', 0) == 6) by {
            reveal_with_fuel(find, 7);
        }
    }
    define_ast(types)
}

/// The text that defines the node types of the given descriptions.
fn define_ast(types: Vec<&str>) -> (text: String)
    requires
        forall|i: int| 0 <= i < types.len() ==> is_description(#[trigger] types@[i]@),
    ensures
        text@ == ast_text(str_views(types@)),
{
    let ghost descriptions = str_views(types@);
    let mut text = "use crate::lexical_analysis::Token;\n".to_owned();
    text.append("#[derive(Copy)]\npub trait Expr {\n");
    text.append("    fn accept(&self, visitor: Box<dyn Visitor>) -> &str;\n}\n\n");
    text.append("pub trait Visitor {\n");
    let mut i: usize = 0;
    assert(descriptions.take(0) =~= Seq::empty());
    while i < types.len()
        invariant
            i <= types.len(),
            descriptions == str_views(types@),
            forall|j: int| 0 <= j < types.len() ==> is_description(#[trigger] types@[j]@),
            text@ == preamble() + "pub trait Visitor {\n"@ + visit_lines(
                descriptions.take(i as int),
            ),
        decreases types.len() - i,
    {
        let components = split_text(types[i], '=');
        proof {
            lemma_split_len(types@[i as int]@, '=', 0);
            assert(components@[0]@ == text_views(components@)[0]);
            assert(descriptions.take(i + 1).drop_last() =~= descriptions.take(i as int));
            assert(descriptions.take(i + 1).last() == types@[i as int]@);
        }
        let name = trim(components[0].as_str());
        text.append("    fn visit");
        text.append(name.as_str());
        text.append("Expr(&self, expr: &");
        text.append(name.as_str());
        text.append(") -> &str;\n");
        i += 1;
        proof {
            assert(text@ =~= preamble() + "pub trait Visitor {\n"@ + visit_lines(
                descriptions.take(i as int),
            ));
        }
    }
    assert(descriptions.take(i as int) =~= descriptions);
    text.append("}\n");
    let mut i: usize = 0;
    assert(descriptions.take(0) =~= Seq::empty());
    assert(text@ =~= preamble() + "pub trait Visitor {\n"@ + visit_lines(descriptions) + "}\n"@
        + type_texts(descriptions.take(0)));
    while i < types.len()
        invariant
            i <= types.len(),
            descriptions == str_views(types@),
            forall|j: int| 0 <= j < types.len() ==> is_description(#[trigger] types@[j]@),
            text@ == preamble() + "pub trait Visitor {\n"@ + visit_lines(descriptions) + "}\n"@
                + type_texts(descriptions.take(i as int)),
        decreases types.len() - i,
    {
        let components = split_text(types[i], '=');
        proof {
            lemma_split_len(types@[i as int]@, '=', 0);
            assert(components@[0]@ == text_views(components@)[0]);
            assert(components@[1]@ == text_views(components@)[1]);
            assert(descriptions.take(i + 1).drop_last() =~= descriptions.take(i as int));
            assert(descriptions.take(i + 1).last() == types@[i as int]@);
        }
        let name = trim(components[0].as_str());
        let fields = trim(components[1].as_str());
        let definition = define_type(name.as_str(), fields.as_str());
        text.append(definition.as_str());
        text.append("impl Expr for ");
        text.append(name.as_str());
        text.append(
            " {\nfn accept(&self, visitor: Box<dyn Visitor>) -> &'static str {return visitor.visit",
        );
        text.append(name.as_str());
        text.append("Expr(&self);}\n}\n\n");
        i += 1;
        proof {
            assert(text@ =~= preamble() + "pub trait Visitor {\n"@ + visit_lines(descriptions)
                + "}\n"@ + type_texts(descriptions.take(i as int)));
        }
    }
    assert(descriptions.take(i as int) =~= descriptions);
    text
}

/// The definition of the struct with the given name and fields.
fn define_type(name: &str, fields: &str) -> (text: String)
    ensures
        text@ == type_text(name@, fields@),
{
    let mut text = "pub struct ".to_owned();
    text.append(name);
    text.append(" {\n");
    let pieces = split_text(fields, ',');
    let ghost all = split(fields@, ',');
    let mut i: usize = 0;
    assert(all.take(0) =~= Seq::empty());
    while i < pieces.len()
        invariant
            i <= pieces.len(),
            all == text_views(pieces@),
            text@ == "pub struct "@ + name@ + " {\n"@ + field_lines(all.take(i as int)),
        decreases pieces.len() - i,
    {
        proof {
            assert(all.take(i + 1).drop_last() =~= all.take(i as int));
            assert(all.take(i + 1).last() == pieces@[i as int]@);
        }
        let field_trimmed = trim(pieces[i].as_str());
        text.append("    pub ");
        text.append(field_trimmed.as_str());
        text.append(",\n");
        i += 1;
        proof {
            assert(text@ =~= "pub struct "@ + name@ + " {\n"@ + field_lines(all.take(i as int)));
        }
    }
    assert(all.take(i as int) =~= all);
    text.append("}\n\n");
    text
}

} // verus!
