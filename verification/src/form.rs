//! A small form of labelled text and password fields with a submit button, as the satellite
//! manager uses it for the Space-Track login.
use vstd::prelude::*;

verus! {

/// Messages of a form.
#[derive(Debug, Clone, PartialEq, Eq)]
pub enum Message {
    Submit,
    UpdateField(usize, String),
}

/// One input field: plain text, or a password whose value is never shown.
#[derive(Clone, PartialEq, Eq)]
pub enum Field {
    Text(String),
    Password(String),
}

/// A form: labelled fields in display order and the label of its submit button.
#[derive(Clone, PartialEq, Eq)]
pub struct Form {
    fields: Vec<(String, Field)>,
    submit_label: String,
}

/// The text a field holds.
pub open spec fn field_value(f: Field) -> Seq<char> {
    match f {
        Field::Text(s) => s@,
        Field::Password(s) => s@,
    }
}

/// The field after its text is replaced by `value`; the kind of field stays.
pub open spec fn field_with_value(f: Field, value: String) -> Field {
    match f {
        Field::Text(_) => Field::Text(value),
        Field::Password(_) => Field::Password(value),
    }
}

/// `format!("{:?}", s)`: the Rust debug form of the text, quoted and escaped.
pub uninterp spec fn debug_quoted(s: Seq<char>) -> Seq<char>;

/// The Rust debug form of a string.
///
/// Trusted: calls `format!("{:?}", s)`. The contract names the result `debug_quoted(s@)`; the
/// quoting and escaping rules of `str`'s `Debug` are not stated.
#[verifier::external_body]
pub(crate) fn quoted(s: &String) -> (r: String)
    ensures
        r@ == debug_quoted(s@),
{
    format!("{:?}", s)
}

/// The debug form of a field: the text of a text field, and a fixed mask for a password.
pub open spec fn field_debug(f: Field) -> Seq<char> {
    match f {
        Field::Text(s) => "Text("@ + debug_quoted(s@) + ")"@,
        Field::Password(_) => "Password(\"********\")"@,
    }
}

impl Field {
    /// The text the field holds.
    pub fn value(&self) -> (r: String)
        ensures
            r@ == field_value(*self),
    {
        match self {
            Field::Text(s) | Field::Password(s) => s.clone(),
        }
    }

    /// The debug form of the field. A password is shown as `********`, whatever it is.
    pub fn debug_repr(&self) -> (r: String)
        ensures
            r@ == field_debug(*self),
    {
        match self {
            Field::Text(s) => {
                let mut out = String::from_str("Text(");
                let q = quoted(s);
                out.append(q.as_str());
                out.append(")");
                out
            },
            Field::Password(_) => String::from_str("Password(\"********\")"),
        }
    }
}

impl Form {
    /// The labelled fields, in display order.
    pub closed spec fn field_list(&self) -> Seq<(String, Field)> {
        self.fields@
    }

    /// The label of the submit button.
    pub closed spec fn label(&self) -> String {
        self.submit_label
    }

    /// A form with the given fields and submit label.
    pub fn new(fields: Vec<(String, Field)>, submit_label: String) -> (r: Self)
        ensures
            r.field_list() == fields@,
            r.label() == submit_label,
    {
        Form { fields, submit_label }
    }

    /// Applies a message: an edit replaces the text of the field at that index, keeping its kind
    /// and label, and is ignored for an index past the last field. Submission is the parent's
    /// business and changes nothing here.
    pub fn update(&mut self, message: Message)
        ensures
            final(self).label() == old(self).label(),
            match message {
                Message::UpdateField(idx, value) => if idx < old(self).field_list().len() {
                    final(self).field_list() == old(self).field_list().update(
                        idx as int,
                        (
                            old(self).field_list()[idx as int].0,
                            field_with_value(old(self).field_list()[idx as int].1, value),
                        ),
                    )
                } else {
                    final(self).field_list() == old(self).field_list()
                },
                Message::Submit => final(self).field_list() == old(self).field_list(),
            },
    {
        match message {
            Message::UpdateField(idx, value) => {
                if idx < self.fields.len() {
                    let (label, field) = self.fields.remove(idx);
                    let new_field = match field {
                        Field::Text(_) => Field::Text(value),
                        Field::Password(_) => Field::Password(value),
                    };
                    self.fields.insert(idx, (label, new_field));
                }
            },
            Message::Submit => {},
        }
    }

    /// The texts of all fields, in display order.
    pub fn field_values(&self) -> (r: Vec<String>)
        ensures
            r@.len() == self.field_list().len(),
            forall|i: int|
                0 <= i < r@.len() ==> #[trigger] r@[i]@ == field_value(self.field_list()[i].1),
    {
        let mut out: Vec<String> = Vec::new();
        let mut i: usize = 0;
        while i < self.fields.len()
            invariant
                i <= self.fields@.len(),
                out@.len() == i,
                forall|j: int| 0 <= j < i ==> #[trigger] out@[j]@ == field_value(self.fields@[j].1),
            decreases self.fields@.len() - i,
        {
            out.push(self.fields[i].1.value());
            i = i + 1;
        }
        out
    }
}

/// A password never shows in a field's debug form: the form is the same for every password.
pub proof fn lemma_password_masked(a: String, b: String)
    ensures
        field_debug(Field::Password(a)) == field_debug(Field::Password(b)),
{
}

} // verus!
