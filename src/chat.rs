use vstd::prelude::*;
use vstd::string::StrSliceExecFns;

verus! {

/// Plain text followed by further pieces of plain text.
pub struct TextComponent {
    pub text: String,
    pub siblings: Vec<String>,
}

/// An argument of a translation: plain text or a component.
pub enum StringOrComponent {
    String(String),
    Component(TextComponent),
}

/// A translation key with the arguments that fill its placeholders.
pub struct TranslatableComponent {
    pub key: String,
    pub args: Vec<StringOrComponent>,
}

/// Why a translation template could not be formatted.
#[derive(Clone, Copy, Debug, PartialEq, Eq, Structural)]
pub enum FormatError {
    /// A `%` and a digit not followed by `$s`.
    MalformedPlaceholder,
}

/// The strings one after the other.
pub open spec fn concat_all(parts: Seq<Seq<char>>) -> Seq<char>
    decreases parts.len(),
{
    if parts.len() == 0 {
        Seq::empty()
    } else {
        concat_all(parts.drop_last()) + parts.last()
    }
}

impl TextComponent {
    /// All the text of the component in order.
    pub open spec fn spec_text(&self) -> Seq<char> {
        self.text@ + concat_all(self.siblings@.map_values(|s: String| s@))
    }

    /// A component holding only `text`.
    pub fn new(text: String) -> (r: Self)
        ensures
            r.text@ == text@,
            r.siblings@.len() == 0,
            r.spec_text() == text@,
    {
        let r = TextComponent { text, siblings: Vec::new() };
        assert(r.siblings@.map_values(|s: String| s@) =~= Seq::<Seq<char>>::empty());
        assert(r.spec_text() =~= r.text@);
        r
    }

    /// All the text of the component in order.
    pub fn to_string(&self) -> (r: String)
        ensures
            r@ == self.spec_text(),
    {
        let mut out = self.text.clone();
        let mut i: usize = 0;
        while i < self.siblings.len()
            invariant
                i <= self.siblings@.len(),
                out@ == self.text@ + concat_all(self.siblings@.subrange(0, i as int).map_values(|s: String| s@)),
            decreases self.siblings@.len() - i,
        {
            out.append(self.siblings[i].as_str());
            proof {
                let m = self.siblings@.subrange(0, i + 1).map_values(|s: String| s@);
                assert(m.drop_last() =~= self.siblings@.subrange(0, i as int).map_values(|s: String| s@));
                assert(out@ =~= self.text@ + concat_all(m));
            }
            i = i + 1;
        }
        assert(self.siblings@.subrange(0, i as int) =~= self.siblings@);
        out
    }
}

impl StringOrComponent {
    pub open spec fn spec_text(&self) -> Seq<char> {
        match self {
            StringOrComponent::String(s) => s@,
            StringOrComponent::Component(c) => c.spec_text(),
        }
    }

    /// The text of the argument.
    pub fn to_string(&self) -> (r: String)
        ensures
            r@ == self.spec_text(),
    {
        match self {
            StringOrComponent::String(s) => s.clone(),
            StringOrComponent::Component(c) => c.to_string(),
        }
    }
}

/// The text of argument `k`, or nothing when there is no such argument.
pub open spec fn arg_text(args: Seq<Seq<char>>, k: int) -> Seq<char> {
    if 0 <= k < args.len() { args[k] } else { Seq::empty() }
}

pub open spec fn is_digit(c: char) -> bool {
    '0' as u32 <= c as u32 <= '9' as u32
}

pub open spec fn digit_value(c: char) -> int {
    c as u32 - '0' as u32
}

/// `a` in front of the text `o`, if there is one.
pub open spec fn prepend(a: Seq<char>, o: Option<Seq<char>>) -> Option<Seq<char>> {
    match o {
        Some(b) => Some(a + b),
        None => None,
    }
}

/// The text that template `t` yields from position `i` on, `matched` plain `%s`
/// placeholders having been used before it; `None` when a `%` and a digit are not
/// followed by `$s`.
///
/// `%%` gives `%`; `%s` gives the next unused argument; `%<d>$s` gives argument
/// `d`, counting from one; a `%` before anything else, or at the very end, stands
/// for itself. A missing argument gives nothing.
pub open spec fn render(t: Seq<char>, args: Seq<Seq<char>>, i: int, matched: int) -> Option<Seq<char>>
    decreases t.len() - i,
{
    if i < 0 || i >= t.len() {
        Some(Seq::empty())
    } else if t[i] != '%' {
        prepend(seq![t[i]], render(t, args, i + 1, matched))
    } else if i + 1 >= t.len() {
        Some(seq!['%'])
    } else {
        let c = t[i + 1];
        if c == '%' {
            prepend(seq!['%'], render(t, args, i + 2, matched))
        } else if c == 's' {
            prepend(arg_text(args, matched), render(t, args, i + 2, matched + 1))
        } else if is_digit(c) {
            if i + 3 < t.len() && t[i + 2] == '$' && t[i + 3] == 's' {
                prepend(arg_text(args, digit_value(c) - 1), render(t, args, i + 4, matched))
            } else {
                None
            }
        } else {
            prepend(seq!['%'], render(t, args, i + 1, matched))
        }
    }
}

pub open spec fn arg_texts(args: Seq<StringOrComponent>) -> Seq<Seq<char>> {
    args.map_values(|a: StringOrComponent| a.spec_text())
}

/// Relies on std's `String: FromIterator<char>`: the string holds the characters in order.
#[verifier::external_body]
fn string_of_chars(cs: &Vec<char>) -> (r: String)
    ensures
        r@ == cs@,
{
    cs.iter().collect()
}

fn push_text(out: &mut Vec<char>, s: &str)
    ensures
        final(out)@ == old(out)@ + s@,
{
    let n = s.unicode_len();
    let mut i: usize = 0;
    while i < n
        invariant
            n == s@.len(),
            i <= n,
            out@ == old(out)@ + s@.subrange(0, i as int),
        decreases n - i,
    {
        out.push(s.get_char(i));
        i = i + 1;
        assert(out@ =~= old(out)@ + s@.subrange(0, i as int));
    }
    assert(s@.subrange(0, n as int) =~= s@);
}

fn arg_string(args: &Vec<StringOrComponent>, k: usize, present: bool) -> (r: String)
    ensures
        r@ == (if present { arg_text(arg_texts(args@), k as int) } else { Seq::<char>::empty() }),
{
    if present && k < args.len() {
        args[k].to_string()
    } else {
        String::new()
    }
}

/// Fills the placeholders of `template` with the text of `args`.
pub fn format_template(template: &str, args: &Vec<StringOrComponent>) -> (r: Result<TextComponent, FormatError>)
    ensures
        render(template@, arg_texts(args@), 0, 0) is None <==> r is Err,
        r matches Ok(c) ==> render(template@, arg_texts(args@), 0, 0) == Some(c.spec_text()),
        r matches Ok(c) ==> c.siblings@.len() == 0 || (c.text@.len() == 0 && c.siblings@.len() % 2 == 1),
        (forall|j: int| 0 <= j < template@.len() ==> template@[j] != '%') ==> (r matches Ok(c) && c.siblings@.len() == 0
            && c.text@ == template@),
{
    let ghost t = template@;
    let ghost av = arg_texts(args@);
    let n = template.unicode_len();
    let mut i: usize = 0;
    let mut matched: usize = 0;
    let mut built: Vec<char> = Vec::new();
    let mut pieces: Vec<String> = Vec::new();
    let ghost mut done: Seq<char> = Seq::empty();
    while i < n
        invariant
            n == t.len(),
            t == template@,
            av == arg_texts(args@),
            i <= n,
            matched <= i,
            done == concat_all(pieces@.map_values(|s: String| s@)),
            pieces@.len() % 2 == 0,
            pieces@.len() > 0 ==> exists|j: int| 0 <= j < i && j < t.len() && t[j] == '%',
            (forall|j: int| 0 <= j < t.len() ==> t[j] != '%') ==> built@ == t.subrange(0, i as int) && pieces@.len() == 0,
            render(t, av, 0, 0) == prepend(done + built@, render(t, av, i as int, matched as int)),
        decreases n + 1 - i,
    {
        let c = template.get_char(i);
        let ghost b0 = built@;
        if c != '%' {
            built.push(c);
            i = i + 1;
            assert(done + built@ =~= (done + b0) + seq![c]);
        } else if i + 1 >= n {
            built.push('%');
            i = n;
            assert(done + built@ =~= (done + b0) + seq!['%']);
        } else {
            let c2 = template.get_char(i + 1);
            if c2 == '%' {
                built.push('%');
                i = i + 2;
                assert(done + built@ =~= (done + b0) + seq!['%']);
            } else if c2 == 's' {
                let a = arg_string(args, matched, true);
                let piece = string_of_chars(&built);
                let ghost m0 = pieces@.map_values(|s: String| s@);
                pieces.push(piece);
                pieces.push(a);
                proof {
                    let m2 = pieces@.map_values(|s: String| s@);
                    assert(m2.drop_last() =~= m0.push(b0));
                    assert(m0.push(b0).drop_last() =~= m0);
                    assert(concat_all(m0.push(b0)) == concat_all(m0) + b0);
                    assert(m2.last() == a@);
                    assert(concat_all(m2) == concat_all(m0.push(b0)) + a@);
                    done = done + b0 + a@;
                }
                built = Vec::new();
                assert(done + built@ =~= done);
                assert(done =~= (concat_all(m0) + b0) + a@);
                matched = matched + 1;
                i = i + 2;
            } else if '0' <= c2 && c2 <= '9' {
                if n - i > 3 && template.get_char(i + 2) == '$' && template.get_char(i + 3) == 's' {
                    let d: u32 = (c2 as u32) - ('0' as u32);
                    let k: usize = if d >= 1 { (d - 1) as usize } else { 0 };
                    let a = arg_string(args, k, d >= 1);
                    push_text(&mut built, a.as_str());
                    assert(d >= 1 ==> k == digit_value(c2) - 1);
                    assert(arg_text(av, digit_value(c2) - 1) == a@);
                    assert(done + built@ =~= (done + b0) + a@);
                    i = i + 4;
                } else {
                    return Err(FormatError::MalformedPlaceholder);
                }
            } else {
                built.push('%');
                i = i + 1;
                assert(done + built@ =~= (done + b0) + seq!['%']);
            }
        }
    }
    assert(render(t, av, 0, 0) == Some(done + built@));
    assert(t.subrange(0, i as int) =~= t);
    if pieces.len() == 0 {
        let r = TextComponent::new(string_of_chars(&built));
        assert(pieces@.map_values(|s: String| s@) =~= Seq::<Seq<char>>::empty());
        assert(done + built@ =~= built@);
        Ok(r)
    } else {
        let ghost m0 = pieces@.map_values(|s: String| s@);
        pieces.push(string_of_chars(&built));
        let r = TextComponent { text: String::new(), siblings: pieces };
        assert(r.siblings@.map_values(|s: String| s@).drop_last() =~= m0);
        assert(r.spec_text() =~= done + built@);
        Ok(r)
    }
}

/// The translation of a key in the bundled language table, if it has one.
pub uninterp spec fn translation_of(key: Seq<char>) -> Option<Seq<char>>;

/// Relies on `azalea_language::get`: a lookup of the key in the bundled `en_us`
/// table, whose answer depends on the key alone.
#[verifier::external_body]
fn lookup_translation(key: &str) -> (r: Option<String>)
    ensures
        r matches Some(s) ==> translation_of(key@) == Some(s@),
        r is None ==> translation_of(key@) is None,
{
    azalea_language::get(key).map(String::from)
}

/// The template of a key: its translation, or the key itself when it has none.
pub open spec fn template_of(key: Seq<char>) -> Seq<char> {
    match translation_of(key) {
        Some(t) => t,
        None => key,
    }
}

impl TranslatableComponent {
    pub fn new(key: String, args: Vec<StringOrComponent>) -> (r: Self)
        ensures
            r.key@ == key@,
            r.args@ == args@,
    {
        TranslatableComponent { key, args }
    }

    /// The text of the key's template with its placeholders filled from the
    /// arguments.
    pub fn read(&self) -> (r: Result<TextComponent, FormatError>)
        ensures
            render(template_of(self.key@), arg_texts(self.args@), 0, 0) is None <==> r is Err,
            r matches Ok(c) ==> render(template_of(self.key@), arg_texts(self.args@), 0, 0) == Some(c.spec_text()),
    {
        match lookup_translation(self.key.as_str()) {
            Some(t) => format_template(t.as_str(), &self.args),
            None => format_template(self.key.as_str(), &self.args),
        }
    }
}

impl From<StringOrComponent> for TextComponent {
    fn from(soc: StringOrComponent) -> (r: TextComponent)
        ensures
            r.text@ == soc.spec_text(),
            r.siblings@.len() == 0,
            r.spec_text() == soc.spec_text(),
    {
        match soc {
            StringOrComponent::String(s) => TextComponent::new(s),
            StringOrComponent::Component(c) => TextComponent::new(c.to_string()),
        }
    }
}

impl vstd::std_specs::convert::FromSpecImpl<StringOrComponent> for TextComponent {
    open spec fn obeys_from_spec() -> bool {
        false
    }

    open spec fn from_spec(v: StringOrComponent) -> TextComponent {
        arbitrary()
    }
}

} // verus!
