//! Built-in validation rules on text.

use vstd::prelude::*;

use crate::text::{concat_str, contains_char, decimal, format_unsigned, is_blank, is_blank_str};
use crate::validation::Validator;

verus! {

/// Validates that a field is not empty.
pub struct Required;

impl Validator for Required {
    open spec fn accepts(&self, value: Seq<char>) -> bool {
        !is_blank(value)
    }

    open spec fn refusal(&self, value: Seq<char>) -> Seq<char> {
        "This field is required"@
    }

    fn validate(&self, value: &str) -> (r: Result<(), String>) {
        if is_blank_str(value) {
            Err(String::from_str("This field is required"))
        } else {
            Ok(())
        }
    }
}

/// How many times `c` occurs in `s`.
pub open spec fn count_char(s: Seq<char>, c: char) -> nat
    decreases s.len(),
{
    if s.len() == 0 {
        0
    } else {
        count_char(s.drop_last(), c) + if s.last() == c { 1nat } else { 0nat }
    }
}

/// A domain is made of non-empty parts separated by single dots, and has at
/// least two of them.
pub open spec fn is_dotted_domain(d: Seq<char>) -> bool {
    &&& d.len() > 0
    &&& d.contains('.')
    &&& d[0] != '.'
    &&& d.last() != '.'
    &&& forall|j: int| 0 <= j < d.len() - 1 ==> !(#[trigger] d[j] == '.' && d[j + 1] == '.')
}

/// The address splits at its only `@` into a non-empty local part and a dotted
/// domain.
pub open spec fn is_email_address(s: Seq<char>) -> bool {
    &&& count_char(s, '@') == 1
    &&& exists|k: int|
        0 < k < s.len() && s[k] == '@' && #[trigger] is_dotted_domain(s.subrange(k + 1, s.len() as int))
}

proof fn lemma_count_char_zero(s: Seq<char>, c: char)
    ensures
        (count_char(s, c) == 0) <==> !s.contains(c),
    decreases s.len(),
{
    if s.len() > 0 {
        lemma_count_char_zero(s.drop_last(), c);
        if s.drop_last().contains(c) {
            let i = choose|i: int| 0 <= i < s.drop_last().len() && s.drop_last()[i] == c;
            assert(s[i] == c);
        }
        if s.contains(c) && s.last() != c {
            let i = choose|i: int| 0 <= i < s.len() && s[i] == c;
            assert(s.drop_last()[i] == c);
        }
        if s.last() == c {
            assert(s[s.len() - 1] == c);
        }
    }
}

proof fn lemma_count_char_one(s: Seq<char>, c: char, k: int)
    requires
        0 <= k < s.len(),
        s[k] == c,
        forall|j: int| 0 <= j < s.len() && j != k ==> s[j] != c,
    ensures
        count_char(s, c) == 1,
    decreases s.len(),
{
    if k == s.len() - 1 {
        lemma_count_char_zero(s.drop_last(), c);
        if s.drop_last().contains(c) {
            let i = choose|i: int| 0 <= i < s.drop_last().len() && s.drop_last()[i] == c;
            assert(s[i] == c);
        }
    } else {
        lemma_count_char_one(s.drop_last(), c, k);
    }
}

proof fn lemma_count_char_two(s: Seq<char>, c: char, k1: int, k2: int)
    requires
        0 <= k1 < k2 < s.len(),
        s[k1] == c,
        s[k2] == c,
    ensures
        count_char(s, c) >= 2,
    decreases s.len(),
{
    if k2 == s.len() - 1 {
        lemma_count_char_zero(s.drop_last(), c);
        assert(s.drop_last()[k1] == c);
    } else {
        lemma_count_char_two(s.drop_last(), c, k1, k2);
    }
}

/// Checks the domain part `s[start..]` of an address.
fn check_domain(s: &str, start: usize) -> (r: bool)
    requires
        start <= s@.len(),
    ensures
        r == is_dotted_domain(s@.subrange(start as int, s@.len() as int)),
{
    let n = s.unicode_len();
    let ghost d = s@.subrange(start as int, s@.len() as int);
    if start >= n {
        return false;
    }
    if s.get_char(start) == '.' || s.get_char(n - 1) == '.' {
        return false;
    }
    let mut has_dot = false;
    let mut i: usize = start;
    while i < n
        invariant
            n == s@.len(),
            start < n,
            start <= i <= n,
            d == s@.subrange(start as int, n as int),
            d[0] != '.',
            d.last() != '.',
            has_dot <==> exists|j: int| 0 <= j < i - start && d[j] == '.',
            forall|j: int| 0 <= j < i - start && j + 1 < d.len() ==> !(#[trigger] d[j] == '.' && d[j + 1] == '.'),
        decreases n - i,
    {
        let c = s.get_char(i);
        assert(d[i - start] == c);
        if c == '.' {
            if i + 1 < n && s.get_char(i + 1) == '.' {
                assert(d[i - start + 1] == '.');
                assert(d[i - start] == '.' && d[i - start + 1] == '.');
                return false;
            }
            has_dot = true;
        }
        proof {
            if i + 1 < n && c == '.' {
                assert(d[i - start + 1] != '.');
            }
        }
        i = i + 1;
    }
    proof {
        if has_dot {
            let j = choose|j: int| 0 <= j < n - start && d[j] == '.';
            assert(d.contains('.'));
        } else {
            if d.contains('.') {
                let j = choose|j: int| 0 <= j < d.len() && d[j] == '.';
                assert(false);
            }
        }
    }
    has_dot
}

/// Validates that a field contains a valid email address.
pub struct Email;

impl Validator for Email {
    open spec fn accepts(&self, value: Seq<char>) -> bool {
        value.len() == 0 || is_email_address(value)
    }

    open spec fn refusal(&self, value: Seq<char>) -> Seq<char> {
        "Invalid email address"@
    }

    fn validate(&self, value: &str) -> (r: Result<(), String>) {
        if value.is_empty() {
            return Ok(());  // Empty is OK, use Required for that
        }
        let n = value.unicode_len();
        // Find the `@`, and make sure there is exactly one.
        let mut at: usize = n;
        let mut i: usize = 0;
        while i < n
            invariant
                n == value@.len(),
                i <= n,
                at <= n,
                at == n ==> forall|j: int| 0 <= j < i ==> value@[j] != '@',
                at < n ==> at < i && value@[at as int] == '@'
                    && forall|j: int| 0 <= j < i && j != at ==> value@[j] != '@',
            decreases n - i,
        {
            if value.get_char(i) == '@' {
                if at < n {
                    proof {
                        lemma_count_char_two(value@, '@', at as int, i as int);
                    }
                    return Err(String::from_str("Invalid email address"));
                }
                at = i;
            }
            i = i + 1;
        }
        if at == n {
            proof {
                lemma_count_char_zero(value@, '@');
                if value@.contains('@') {
                    let j = choose|j: int| 0 <= j < value@.len() && value@[j] == '@';
                    assert(false);
                }
            }
            return Err(String::from_str("Invalid email address"));
        }
        proof {
            lemma_count_char_one(value@, '@', at as int);
        }
        if at == 0 || at + 1 >= n {
            proof {
                if is_email_address(value@) {
                    let k = choose|k: int|
                        0 < k < value@.len() && value@[k] == '@' && #[trigger] is_dotted_domain(
                            value@.subrange(k + 1, value@.len() as int),
                        );
                    assert(k == at);
                }
            }
            return Err(String::from_str("Invalid email address"));
        }
        if check_domain(value, at + 1) {
            Ok(())
        } else {
            proof {
                if is_email_address(value@) {
                    let k = choose|k: int|
                        0 < k < value@.len() && value@[k] == '@' && #[trigger] is_dotted_domain(
                            value@.subrange(k + 1, value@.len() as int),
                        );
                    assert(k == at);
                }
            }
            Err(String::from_str("Invalid email address"))
        }
    }
}

/// Validates minimum string length, counted in characters.
pub struct MinLength(pub usize);

impl Validator for MinLength {
    open spec fn accepts(&self, value: Seq<char>) -> bool {
        value.len() == 0 || value.len() >= self.0
    }

    open spec fn refusal(&self, value: Seq<char>) -> Seq<char> {
        "Must be at least "@ + decimal(self.0 as nat) + " characters"@
    }

    fn validate(&self, value: &str) -> (r: Result<(), String>) {
        if value.is_empty() {
            return Ok(());  // Empty is OK, use Required for that
        }
        if value.unicode_len() < self.0 {
            let mut msg = String::from_str("Must be at least ");
            let number = format_unsigned(self.0 as u128);
            msg.append(number.as_str());
            msg.append(" characters");
            Err(msg)
        } else {
            Ok(())
        }
    }
}

/// Validates maximum string length, counted in characters.
pub struct MaxLength(pub usize);

impl Validator for MaxLength {
    open spec fn accepts(&self, value: Seq<char>) -> bool {
        value.len() <= self.0
    }

    open spec fn refusal(&self, value: Seq<char>) -> Seq<char> {
        "Must be at most "@ + decimal(self.0 as nat) + " characters"@
    }

    fn validate(&self, value: &str) -> (r: Result<(), String>) {
        if value.unicode_len() > self.0 {
            let mut msg = String::from_str("Must be at most ");
            let number = format_unsigned(self.0 as u128);
            msg.append(number.as_str());
            msg.append(" characters");
            Err(msg)
        } else {
            Ok(())
        }
    }
}

/// Whether the regex crate compiles `pattern` into a regular expression.
pub uninterp spec fn regex_compiles(pattern: Seq<char>) -> bool;

/// Whether the regular expression compiled from `pattern` matches somewhere in
/// `haystack`.
pub uninterp spec fn regex_is_match(pattern: Seq<char>, haystack: Seq<char>) -> bool;

#[verifier::external_type_specification]
#[verifier::external_body]
pub struct ExRegex(regex::Regex);

/// Validates against a regex pattern.
pub struct Pattern {
    regex: regex::Regex,
    source: String,
    message: String,
}

/// `regex::Regex::new`: compiles `pattern`. The contract claims that it
/// succeeds exactly when the crate compiles the pattern, and that the pattern
/// kept beside the compiled regex is `pattern` itself.
#[verifier::external_body]
fn compile_pattern(pattern: &str, message: String) -> (r: Option<Pattern>)
    ensures
        r is Some <==> regex_compiles(pattern@),
        r matches Some(p) ==> p.source@ == pattern@ && p.message == message,
{
    match regex::Regex::new(pattern) {
        Ok(regex) => Some(Pattern { regex, source: pattern.to_string(), message }),
        Err(_) => None,
    }
}

/// `regex::Regex::is_match`: whether the compiled pattern matches anywhere in
/// `haystack`. The contract claims the result is the name's value on the
/// pattern the regex was compiled from.
#[verifier::external_body]
fn pattern_is_match(p: &Pattern, haystack: &str) -> (r: bool)
    ensures
        r == regex_is_match(p.source@, haystack@),
{
    p.regex.is_match(haystack)
}

impl Pattern {
    /// The regular expression this validator was built from.
    pub closed spec fn source(&self) -> Seq<char> {
        self.source@
    }

    /// The message reported for values that do not match.
    pub closed spec fn message(&self) -> Seq<char> {
        self.message@
    }

    /// Creates a new pattern validator.
    ///
    /// The pattern must be a valid regex (the regex crate compiles it).
    pub fn new(pattern: &str, message: &str) -> (r: Self)
        requires
            regex_compiles(pattern@),
        ensures
            r.source() == pattern@,
            r.message() == message@,
    {
        compile_pattern(pattern, String::from_str(message)).unwrap()
    }

    /// Creates a new pattern validator, or `None` when the regex crate refuses
    /// the pattern.
    pub fn try_new(pattern: &str, message: &str) -> (r: Option<Self>)
        ensures
            r is Some <==> regex_compiles(pattern@),
            r matches Some(p) ==> p.source() == pattern@ && p.message() == message@,
    {
        compile_pattern(pattern, String::from_str(message))
    }

    /// Creates a US ZIP code validator (5 digits or 5+4 format), or `None`
    /// when the regex crate refuses its pattern.
    pub fn zip_code() -> (r: Option<Self>)
        ensures
            r is Some <==> regex_compiles(zip_code_pattern()),
            r matches Some(p) ==> p.source() == zip_code_pattern()
                && p.message() == "Invalid ZIP code format"@,
    {
        Self::try_new("^\\d{5}(-\\d{4})?$", "Invalid ZIP code format")
    }

    /// Creates a US phone number validator, or `None` when the regex crate
    /// refuses its pattern.
    pub fn phone() -> (r: Option<Self>)
        ensures
            r is Some <==> regex_compiles(phone_pattern()),
            r matches Some(p) ==> p.source() == phone_pattern()
                && p.message() == "Invalid phone number format"@,
    {
        Self::try_new(
            "^(\\+1[-.\\s]?)?(\\(?\\d{3}\\)?[-.\\s]?)?\\d{3}[-.\\s]?\\d{4}$",
            "Invalid phone number format",
        )
    }

    /// Creates a date validator (YYYY-MM-DD format), or `None` when the regex
    /// crate refuses its pattern.
    pub fn date() -> (r: Option<Self>)
        ensures
            r is Some <==> regex_compiles(date_pattern()),
            r matches Some(p) ==> p.source() == date_pattern()
                && p.message() == "Invalid date format (use YYYY-MM-DD)"@,
    {
        Self::try_new("^\\d{4}-\\d{2}-\\d{2}$", "Invalid date format (use YYYY-MM-DD)")
    }
}

/// The regular expression of [`Pattern::zip_code`].
pub open spec fn zip_code_pattern() -> Seq<char> {
    "^\\d{5}(-\\d{4})?$"@
}

/// The regular expression of [`Pattern::phone`].
pub open spec fn phone_pattern() -> Seq<char> {
    "^(\\+1[-.\\s]?)?(\\(?\\d{3}\\)?[-.\\s]?)?\\d{3}[-.\\s]?\\d{4}$"@
}

/// The regular expression of [`Pattern::date`].
pub open spec fn date_pattern() -> Seq<char> {
    "^\\d{4}-\\d{2}-\\d{2}$"@
}

impl Validator for Pattern {
    open spec fn accepts(&self, value: Seq<char>) -> bool {
        value.len() == 0 || regex_is_match(self.source(), value)
    }

    open spec fn refusal(&self, value: Seq<char>) -> Seq<char> {
        self.message()
    }

    fn validate(&self, value: &str) -> (r: Result<(), String>) {
        if value.is_empty() {
            return Ok(());  // Empty is OK, use Required for that
        }
        if pattern_is_match(self, value) {
            Ok(())
        } else {
            Err(self.message.clone())
        }
    }
}

} // verus!
