//! Compact JSON text, as `serde_json` writes it with its default (key-sorted)
//! maps: `{"a":1,"b":"x"}`, no whitespace.

use vstd::prelude::*;
use crate::text::{dec, join, join_strings, push_char, push_dec, push_str};

verus! {

/// Lowercase hex digit for `d < 16`.
pub open spec fn hex_digit(d: nat) -> char {
    if d < 10 {
        ((d + 48) as u32) as char
    } else {
        ((d + 87) as u32) as char
    }
}

/// How `serde_json` escapes one char inside a string literal.
pub open spec fn json_escape_char(c: char) -> Seq<char> {
    if c == '"' {
        seq!['\\', '"']
    } else if c == '\\' {
        seq!['\\', '\\']
    } else if (c as u32) == 0x08 {
        seq!['\\', 'b']
    } else if (c as u32) == 0x09 {
        seq!['\\', 't']
    } else if (c as u32) == 0x0a {
        seq!['\\', 'n']
    } else if (c as u32) == 0x0c {
        seq!['\\', 'f']
    } else if (c as u32) == 0x0d {
        seq!['\\', 'r']
    } else if (c as u32) < 0x20 {
        seq!['\\', 'u', '0', '0', hex_digit(((c as u32) / 16) as nat), hex_digit(((c as u32) % 16) as nat)]
    } else {
        seq![c]
    }
}

/// The escaped contents of a JSON string literal.
pub open spec fn json_escape(s: Seq<char>) -> Seq<char>
    decreases s.len(),
{
    if s.len() == 0 {
        seq![]
    } else {
        json_escape(s.drop_last()) + json_escape_char(s.last())
    }
}

/// A JSON string literal: `"` + escaped contents + `"`.
pub open spec fn json_quote(s: Seq<char>) -> Seq<char> {
    seq!['"'] + json_escape(s) + seq!['"']
}

/// `"key":value`.
pub open spec fn jfield(key: Seq<char>, value: Seq<char>) -> Seq<char> {
    json_quote(key) + seq![':'] + value
}

/// `{field,field,...}`.
pub open spec fn jobj(fields: Seq<Seq<char>>) -> Seq<char> {
    seq!['{'] + join(fields, seq![',']) + seq!['}']
}

/// `[item,item,...]`.
pub open spec fn jarr(items: Seq<Seq<char>>) -> Seq<char> {
    seq!['['] + join(items, seq![',']) + seq![']']
}

/// `true` or `false`.
pub open spec fn jbool(b: bool) -> Seq<char> {
    if b {
        seq!['t', 'r', 'u', 'e']
    } else {
        seq!['f', 'a', 'l', 's', 'e']
    }
}

/// `null`.
pub open spec fn jnull() -> Seq<char> {
    seq!['n', 'u', 'l', 'l']
}

/// `serde_json::to_string` of a `&str`: the JSON string literal of the text.
/// Its contract is the escaping that `serde_json`'s serializer applies
/// (`"`, `\`, and control chars below U+0020, with `\b \t \n \f \r` short
/// forms and `\u00xx` in lowercase hex otherwise); serializing a `str`
/// cannot fail.
#[verifier::external_body]
pub fn json_quoted(s: &str) -> (r: String)
    ensures
        r@ == json_quote(s@),
{
    serde_json::to_string(s).unwrap()
}

/// A JSON array of already rendered items.
pub fn json_array(items: &Vec<String>) -> (r: String)
    ensures
        r@ == jarr(items@.map_values(|s: String| s@)),
{
    let mut r = String::new();
    push_char(&mut r, '[');
    let inner = join_strings(items, ",");
    push_str(&mut r, inner.as_str());
    push_char(&mut r, ']');
    proof {
        reveal_strlit(",");
        assert(","@ =~= seq![',']);
        assert(r@ =~= jarr(items@.map_values(|s: String| s@)));
    }
    r
}

/// An object being written field by field.
pub struct JsonObj {
    pub text: String,
    pub count: usize,
    pub fields: Ghost<Seq<Seq<char>>>,
}

impl JsonObj {
    pub open spec fn wf(&self) -> bool {
        &&& self.text@ == seq!['{'] + join(self.fields@, seq![','])
        &&& self.count == self.fields@.len()
    }

    /// An object with no fields yet.
    pub fn new() -> (o: Self)
        ensures
            o.wf(),
            o.fields@ == Seq::<Seq<char>>::empty(),
    {
        let mut text = String::new();
        push_char(&mut text, '{');
        let o = JsonObj { text, count: 0, fields: Ghost(Seq::empty()) };
        assert(o.text@ =~= seq!['{'] + join(o.fields@, seq![',']));
        o
    }

    fn push_key(&mut self, key: &str)
        requires
            old(self).wf(),
            old(self).count < usize::MAX,
        ensures
            final(self).text@ == old(self).text@ + (if old(self).count > 0 {
                seq![',']
            } else {
                Seq::<char>::empty()
            }) + json_quote(key@) + seq![':'],
            final(self).count == old(self).count,
            final(self).fields == old(self).fields,
    {
        if self.count > 0 {
            push_char(&mut self.text, ',');
        }
        let q = json_quoted(key);
        push_str(&mut self.text, q.as_str());
        push_char(&mut self.text, ':');
        assert(old(self).text@ + (if old(self).count > 0 {
            seq![',']
        } else {
            Seq::<char>::empty()
        }) + json_quote(key@) + seq![':'] =~= self.text@);
    }

    proof fn lemma_added(&self, old_fields: Seq<Seq<char>>, old_text: Seq<char>, f: Seq<char>)
        requires
            old_text == seq!['{'] + join(old_fields, seq![',']),
            self.fields@ == old_fields.push(f),
            self.text@ == old_text + (if old_fields.len() > 0 {
                seq![',']
            } else {
                Seq::<char>::empty()
            }) + f,
        ensures
            self.text@ == seq!['{'] + join(self.fields@, seq![',']),
    {
        let nf = old_fields.push(f);
        assert(nf.drop_last() =~= old_fields);
        if old_fields.len() == 0 {
            assert(join(nf, seq![',']) == f);
            assert(self.text@ =~= seq!['{'] + f);
        } else {
            assert(join(nf, seq![',']) == join(old_fields, seq![',']) + seq![','] + f);
            assert(self.text@ =~= seq!['{'] + join(nf, seq![',']));
        }
    }

    /// Adds `"key":"value"`.
    pub fn str_field(&mut self, key: &str, value: &str)
        requires
            old(self).wf(),
            old(self).count < usize::MAX,
        ensures
            final(self).wf(),
            final(self).fields@ == old(self).fields@.push(jfield(key@, json_quote(value@))),
    {
        let ghost of = self.fields@;
        let ghost ot = self.text@;
        self.push_key(key);
        let q = json_quoted(value);
        push_str(&mut self.text, q.as_str());
        self.count = self.count + 1;
        self.fields = Ghost(of.push(jfield(key@, json_quote(value@))));
        proof {
            assert(self.text@ =~= ot + (if of.len() > 0 {
                seq![',']
            } else {
                Seq::<char>::empty()
            }) + jfield(key@, json_quote(value@)));
            self.lemma_added(of, ot, jfield(key@, json_quote(value@)));
        }
    }

    /// Adds `"key":<number>`.
    pub fn num_field(&mut self, key: &str, n: u64)
        requires
            old(self).wf(),
            old(self).count < usize::MAX,
        ensures
            final(self).wf(),
            final(self).fields@ == old(self).fields@.push(jfield(key@, dec(n as nat))),
    {
        let ghost of = self.fields@;
        let ghost ot = self.text@;
        self.push_key(key);
        push_dec(&mut self.text, n);
        self.count = self.count + 1;
        self.fields = Ghost(of.push(jfield(key@, dec(n as nat))));
        proof {
            assert(self.text@ =~= ot + (if of.len() > 0 {
                seq![',']
            } else {
                Seq::<char>::empty()
            }) + jfield(key@, dec(n as nat)));
            self.lemma_added(of, ot, jfield(key@, dec(n as nat)));
        }
    }

    /// Adds `"key":<already rendered JSON>`.
    pub fn raw_field(&mut self, key: &str, rendered: &str)
        requires
            old(self).wf(),
            old(self).count < usize::MAX,
        ensures
            final(self).wf(),
            final(self).fields@ == old(self).fields@.push(jfield(key@, rendered@)),
    {
        let ghost of = self.fields@;
        let ghost ot = self.text@;
        self.push_key(key);
        push_str(&mut self.text, rendered);
        self.count = self.count + 1;
        self.fields = Ghost(of.push(jfield(key@, rendered@)));
        proof {
            assert(self.text@ =~= ot + (if of.len() > 0 {
                seq![',']
            } else {
                Seq::<char>::empty()
            }) + jfield(key@, rendered@));
            self.lemma_added(of, ot, jfield(key@, rendered@));
        }
    }

    /// Adds `"key":true` or `"key":false`.
    pub fn bool_field(&mut self, key: &str, b: bool)
        requires
            old(self).wf(),
            old(self).count < usize::MAX,
        ensures
            final(self).wf(),
            final(self).fields@ == old(self).fields@.push(jfield(key@, jbool(b))),
    {
        let t = if b {
            let s = String::from_str("true");
            proof {
                reveal_strlit("true");
            }
            s
        } else {
            let s = String::from_str("false");
            proof {
                reveal_strlit("false");
            }
            s
        };
        assert(t@ =~= jbool(b));
        self.raw_field(key, t.as_str());
    }

    /// Adds `"key":null`.
    pub fn null_field(&mut self, key: &str)
        requires
            old(self).wf(),
            old(self).count < usize::MAX,
        ensures
            final(self).wf(),
            final(self).fields@ == old(self).fields@.push(jfield(key@, jnull())),
    {
        let t = String::from_str("null");
        proof {
            reveal_strlit("null");
        }
        assert(t@ =~= jnull());
        self.raw_field(key, t.as_str());
    }

    /// The finished object text.
    pub fn finish(self) -> (r: String)
        requires
            self.wf(),
        ensures
            r@ == jobj(self.fields@),
    {
        let mut t = self.text;
        push_char(&mut t, '}');
        t
    }
}

} // verus!
