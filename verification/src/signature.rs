//! Block headers: a module, a function, or free text.

use vstd::prelude::*;

use crate::text::{join_strings, joined};

verus! {

/// How far a declaration can be seen.
#[derive(Debug)]
pub enum SignatureVisibility {
    Pub,
    PubCrate,
    PubSuper,
    PubSelf,
}

impl SignatureVisibility {
    /// The keyword that stands for this visibility.
    pub open spec fn token(self) -> Seq<char> {
        match self {
            SignatureVisibility::Pub => "pub"@,
            SignatureVisibility::PubCrate => "pub(crate)"@,
            SignatureVisibility::PubSuper => "pub(super)"@,
            SignatureVisibility::PubSelf => "pub(self)"@,
        }
    }
}

impl ToString for SignatureVisibility {
    /// Writes the visibility as its keyword.
    fn to_string(&self) -> (out: String)
        ensures
            out@ == self.token(),
    {
        match self {
            SignatureVisibility::Pub => "pub".to_string(),
            SignatureVisibility::PubCrate => "pub(crate)".to_string(),
            SignatureVisibility::PubSuper => "pub(super)".to_string(),
            SignatureVisibility::PubSelf => "pub(self)".to_string(),
        }
    }
}

/// The header that stands before a block's opening brace.
#[derive(Debug)]
pub enum BlockSignature {
    /// A module declaration.
    Module { visibility: Option<SignatureVisibility>, name: String },
    /// A function declaration.
    Function {
        visibility: Option<SignatureVisibility>,
        is_async: bool,
        name: String,
        generics: Vec<String>,
        params: Vec<(String, String)>,
        return_type: Option<String>,
        where_clauses: Vec<(String, String)>,
    },
    /// Free text, written as it is.
    Custom(String),
}

/// What a [`BlockSignature`] holds, with every string as its characters.
pub enum SignatureView {
    Module { visibility: Option<SignatureVisibility>, name: Seq<char> },
    Function {
        visibility: Option<SignatureVisibility>,
        is_async: bool,
        name: Seq<char>,
        generics: Seq<Seq<char>>,
        params: Seq<(Seq<char>, Seq<char>)>,
        return_type: Option<Seq<char>>,
        where_clauses: Seq<(Seq<char>, Seq<char>)>,
    },
    Custom(Seq<char>),
}

impl View for BlockSignature {
    type V = SignatureView;

    open spec fn view(&self) -> SignatureView {
        match self {
            BlockSignature::Module { visibility, name } => SignatureView::Module {
                visibility: *visibility,
                name: name@,
            },
            BlockSignature::Function {
                visibility,
                is_async,
                name,
                generics,
                params,
                return_type,
                where_clauses,
            } => SignatureView::Function {
                visibility: *visibility,
                is_async: *is_async,
                name: name@,
                generics: generics.deep_view(),
                params: params.deep_view(),
                return_type: return_type.deep_view(),
                where_clauses: where_clauses.deep_view(),
            },
            BlockSignature::Custom(text) => SignatureView::Custom(text@),
        }
    }
}

/// The view of the header, where there is one.
pub open spec fn signature_view(signature: Option<BlockSignature>) -> Option<SignatureView> {
    match signature {
        Some(s) => Some(s@),
        None => None,
    }
}

/// The visibility keyword followed by one space, or nothing where no
/// visibility is given.
pub open spec fn visibility_prefix(visibility: Option<SignatureVisibility>) -> Seq<char> {
    match visibility {
        Some(v) => v.token() + " "@,
        None => Seq::empty(),
    }
}

/// A pair written as its first part, a colon, a space and its second part.
pub open spec fn pair_text(pair: (Seq<char>, Seq<char>)) -> Seq<char> {
    pair.0 + ": "@ + pair.1
}

/// The pairs written one after the other, with a comma and a space between
/// each two.
pub open spec fn pair_list(pairs: Seq<(Seq<char>, Seq<char>)>) -> Seq<char> {
    joined(pairs.map_values(|p: (Seq<char>, Seq<char>)| pair_text(p)), ", "@)
}

/// The generic parameters in angle brackets, or nothing where there are none.
pub open spec fn generics_text(generics: Seq<Seq<char>>) -> Seq<char> {
    if generics.len() == 0 {
        Seq::empty()
    } else {
        "<"@ + joined(generics, ", "@) + ">"@
    }
}

/// An arrow and the return type, or nothing where none is given.
pub open spec fn return_text(return_type: Option<Seq<char>>) -> Seq<char> {
    match return_type {
        Some(t) => " -> "@ + t,
        None => Seq::empty(),
    }
}

/// The `where` line, which starts with a line break, or nothing where there
/// are no clauses.
pub open spec fn where_text(clauses: Seq<(Seq<char>, Seq<char>)>) -> Seq<char> {
    if clauses.len() == 0 {
        Seq::empty()
    } else {
        "\nwhere "@ + pair_list(clauses)
    }
}

impl SignatureView {
    /// The header as it is written before the opening brace.
    pub open spec fn text(self) -> Seq<char> {
        match self {
            SignatureView::Module { visibility, name } => {
                visibility_prefix(visibility) + "mod "@ + name
            },
            SignatureView::Function {
                visibility,
                is_async,
                name,
                generics,
                params,
                return_type,
                where_clauses,
            } => {
                visibility_prefix(visibility) + (if is_async {
                    "async "@
                } else {
                    Seq::empty()
                }) + "fn "@ + name + generics_text(generics) + "("@ + pair_list(params) + ")"@
                    + return_text(return_type) + where_text(where_clauses)
            },
            SignatureView::Custom(text) => text,
        }
    }
}

/// Writes each pair as `first: second`, then all of them with `", "` between.
fn join_pairs(pairs: &Vec<(String, String)>) -> (out: String)
    ensures
        out@ == pair_list(pairs.deep_view()),
{
    let ghost texts = pairs.deep_view().map_values(|p: (Seq<char>, Seq<char>)| pair_text(p));
    let mut written: Vec<String> = Vec::new();
    let mut i: usize = 0;
    while i < pairs.len()
        invariant
            i <= pairs.len(),
            texts == pairs.deep_view().map_values(|p: (Seq<char>, Seq<char>)| pair_text(p)),
            written.deep_view() == texts.take(i as int),
        decreases pairs.len() - i,
    {
        let mut one = String::new();
        one.append(pairs[i].0.as_str());
        one.append(": ");
        one.append(pairs[i].1.as_str());
        written.push(one);
        proof {
            assert(texts.take(i + 1) =~= texts.take(i as int).push(texts[i as int]));
        }
        i = i + 1;
    }
    proof {
        assert(texts.take(i as int) == texts);
    }
    join_strings(&written, ", ")
}

/// Puts the visibility keyword and one space at the end of `out`, where a
/// visibility is given.
fn push_visibility(out: &mut String, visibility: &Option<SignatureVisibility>)
    ensures
        final(out)@ == old(out)@ + visibility_prefix(*visibility),
{
    if let Some(v) = visibility {
        out.append(v.to_string().as_str());
        out.push(' ');
        proof {
            reveal_strlit(" ");
        }
    }
}

impl ToString for BlockSignature {
    /// Writes the header as it stands before the opening brace.
    fn to_string(&self) -> (out: String)
        ensures
            out@ == self@.text(),
    {
        match self {
            BlockSignature::Module { visibility, name } => {
                let mut result = String::new();
                push_visibility(&mut result, visibility);
                result.append("mod ");
                result.append(name.as_str());
                result
            },
            BlockSignature::Function {
                visibility,
                is_async,
                name,
                generics,
                params,
                return_type,
                where_clauses,
            } => {
                let mut result = String::new();
                push_visibility(&mut result, visibility);
                if *is_async {
                    result.append("async ");
                }
                result.append("fn ");
                result.append(name.as_str());
                if !generics.is_empty() {
                    result.append("<");
                    result.append(join_strings(generics, ", ").as_str());
                    result.append(">");
                }
                result.append("(");
                result.append(join_pairs(params).as_str());
                result.append(")");
                if let Some(return_type) = return_type {
                    result.append(" -> ");
                    result.append(return_type.as_str());
                }
                if !where_clauses.is_empty() {
                    result.append("\nwhere ");
                    result.append(join_pairs(where_clauses).as_str());
                }
                result
            },
            BlockSignature::Custom(signature) => signature.clone(),
        }
    }
}

} // verus!
