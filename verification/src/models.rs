//! What is known of models: what they cost, how much they take, and what they are good for.

use crate::glyphs::{alphanumeric, is_alphanumeric, lowercase, to_lowercase};
use crate::names::{kin, kin_name};
use crate::numbers::{digit_is, is_digit, parse_u32, unsigned_of};
use crate::text::{
    before_suffix, chars_of, contains, has, occurs_at, pieces, same, split, starts_with, string_of,
    strip_suffix, texts,
};
use crate::types::{ModelInfo, ModelInfoView, ModelTier};
use vstd::prelude::*;

verus! {

/// The place of a tier in the chain of tiers.
pub open spec fn rank(t: ModelTier) -> int {
    match t {
        ModelTier::Micro => 0,
        ModelTier::Light => 1,
        ModelTier::Heavy => 2,
    }
}

/// Whether a model of one tier can take a request of another: any at or below its own.
pub fn tier_compatible(model_tier: ModelTier, req_tier: ModelTier) -> (r: bool)
    ensures
        r == (rank(req_tier) <= rank(model_tier)),
{
    match (model_tier, req_tier) {
        (ModelTier::Heavy, _) => true,
        (ModelTier::Light, ModelTier::Light) => true,
        (ModelTier::Light, ModelTier::Micro) => true,
        (ModelTier::Micro, ModelTier::Micro) => true,
        _ => false,
    }
}

/// The models that Anthropic serves.
pub open spec fn anthropic_model(family: Seq<char>, model: Seq<char>) -> ModelInfoView {
    let (input, output, tier) = if model == kin(family, "-opus-4-7"@) {
        (1500u32, 7500u32, ModelTier::Heavy)
    } else if model == kin(family, "-sonnet-4-6"@) {
        (300u32, 1500u32, ModelTier::Heavy)
    } else if model == kin(family, "-haiku-4-5-20251001"@) {
        (80u32, 400u32, ModelTier::Light)
    } else {
        (1500u32, 7500u32, ModelTier::Heavy)
    };
    ModelInfoView {
        provider: "anthropic"@,
        model,
        tier,
        input_cents_per_million: input,
        output_cents_per_million: output,
        context_limit: 200_000,
    }
}

/// The models that Anthropic serves. One that is not known counts as the dearest.
pub fn anthropic_info(family: &str, model: &str) -> (r: ModelInfo)
    ensures
        r@ == anthropic_model(family@, model@),
{
    let (input, output, tier): (u32, u32, ModelTier) = if same(model, kin_name(family, "-opus-4-7").as_str()) {
        (1500, 7500, ModelTier::Heavy)
    } else if same(model, kin_name(family, "-sonnet-4-6").as_str()) {
        (300, 1500, ModelTier::Heavy)
    } else if same(model, kin_name(family, "-haiku-4-5-20251001").as_str()) {
        (80, 400, ModelTier::Light)
    } else {
        (1500, 7500, ModelTier::Heavy)
    };
    ModelInfo {
        provider: "anthropic".to_owned(),
        model: model.to_owned(),
        tier,
        input_cents_per_million: input,
        output_cents_per_million: output,
        context_limit: 200_000,
    }
}

/// The models that Gemini serves.
pub open spec fn gemini_model(model: Seq<char>) -> ModelInfoView {
    let dear = !(has(model, "flash"@)) && has(model, "pro"@);
    ModelInfoView {
        provider: "gemini"@,
        model,
        tier: ModelTier::Heavy,
        input_cents_per_million: if dear {
            125
        } else {
            10
        },
        output_cents_per_million: if dear {
            500
        } else {
            40
        },
        context_limit: 1_000_000,
    }
}

/// The models that Gemini serves.
pub fn gemini_info(model: &str) -> (r: ModelInfo)
    ensures
        r@ == gemini_model(model@),
{
    let dear = !contains(model, "flash") && contains(model, "pro");
    ModelInfo {
        provider: "gemini".to_owned(),
        model: model.to_owned(),
        tier: ModelTier::Heavy,
        input_cents_per_million: if dear {
            125
        } else {
            10
        },
        output_cents_per_million: if dear {
            500
        } else {
            40
        },
        context_limit: 1_000_000,
    }
}

/// The model behind the command-line program, priced as if it were paid for by the token.
pub open spec fn cli_model(family: Seq<char>, model: Seq<char>) -> ModelInfoView {
    ModelInfoView {
        provider: kin(family, "-cli"@),
        model,
        tier: ModelTier::Heavy,
        input_cents_per_million: 80,
        output_cents_per_million: 400,
        context_limit: 200_000,
    }
}

/// The model behind the command-line program. Its price keeps other providers before it.
pub fn cli_info(family: &str, model: &str) -> (r: ModelInfo)
    ensures
        r@ == cli_model(family@, model@),
{
    ModelInfo {
        provider: kin_name(family, "-cli"),
        model: model.to_owned(),
        tier: ModelTier::Heavy,
        input_cents_per_million: 80,
        output_cents_per_million: 400,
        context_limit: 200_000,
    }
}

/// Whether the name of a model says that it is made for code.
pub open spec fn is_coder(lower: Seq<char>) -> bool {
    has(lower, "coder"@) || has(lower, "code"@) || has(lower, "rust"@) || has(lower, "instruct"@)
}

/// The words of a text: what stands between characters that are neither letters, digits nor
/// points.
pub open spec fn words(s: Seq<char>) -> Seq<Seq<char>> {
    pieces(
        s.map_values(
            |c: char|
                if c == '.' || is_alphanumeric(c) {
                    c
                } else {
                    ' '
                },
        ),
        ' ',
    )
}

/// The digits that a text ends with.
pub open spec fn trailing_digits(s: Seq<char>) -> Seq<char>
    decreases s.len(),
{
    if s.len() > 0 && is_digit(s.last()) {
        trailing_digits(s.drop_last()).push(s.last())
    } else {
        Seq::empty()
    }
}

/// The whole part of a number whose last digits are `digits`: the digits that `before` ends with,
/// where `before` is what a point parts from them; else they are the number.
pub open spec fn whole_part(before: Option<Seq<char>>, digits: Seq<char>) -> Seq<char> {
    match before {
        Some(text) => if trailing_digits(text).len() > 0 && digits.len() > 0 {
            trailing_digits(text)
        } else {
            digits
        },
        None => digits,
    }
}

/// The number of parameters, in whole billions, that part `i` of a word states, together with the
/// part before it: digits, perhaps a point and digits, and a `b`.
pub open spec fn parameters(parts: Seq<Seq<char>>, i: int) -> Option<nat> {
    match before_suffix(parts[i], "b"@) {
        Some(digits) => if trailing_digits(digits) == digits {
            unsigned_of(
                whole_part(
                    if i > 0 {
                        Some(parts[i - 1])
                    } else {
                        None
                    },
                    digits,
                ),
                u32::MAX as nat,
            )
        } else {
            None
        },
        None => None,
    }
}

/// The number of parameters that the first part of a word to state one states, from `i` on.
pub open spec fn word_parameters(parts: Seq<Seq<char>>, i: int) -> Option<nat>
    decreases parts.len() - i,
{
    if i < 0 || i >= parts.len() {
        None
    } else {
        match parameters(parts, i) {
            Some(n) => Some(n),
            None => word_parameters(parts, i + 1),
        }
    }
}

/// The number of parameters that the first of `words` to state one states, from `i` on.
pub open spec fn stated_parameters(words: Seq<Seq<char>>, i: int) -> Option<nat>
    decreases words.len() - i,
{
    if i < 0 || i >= words.len() {
        None
    } else {
        match word_parameters(pieces(words[i], '.'), 0) {
            Some(n) => Some(n),
            None => stated_parameters(words, i + 1),
        }
    }
}

/// The tier of a model by its number of parameters, in billions.
pub open spec fn tier_of_size(n: nat) -> ModelTier {
    if n >= 20 {
        ModelTier::Heavy
    } else if n >= 7 {
        ModelTier::Light
    } else {
        ModelTier::Micro
    }
}

/// The next tier above, where there is one.
pub open spec fn promoted(t: ModelTier) -> ModelTier {
    match t {
        ModelTier::Micro => ModelTier::Light,
        ModelTier::Light => ModelTier::Heavy,
        ModelTier::Heavy => ModelTier::Heavy,
    }
}

/// The tier of a local model, by its name in lower case: by the number of parameters that it
/// states, models made for code counting one tier higher. One that states none counts as light.
pub open spec fn local_tier(lower: Seq<char>) -> ModelTier {
    let plain = match stated_parameters(words(lower), 0) {
        Some(n) => tier_of_size(n),
        None => ModelTier::Light,
    };
    if is_coder(lower) {
        promoted(plain)
    } else {
        plain
    }
}

fn words_in(s: &str) -> (r: Vec<String>)
    ensures
        texts(r@) == words(s@),
{
    let v = chars_of(s);
    let ghost spaced = s@.map_values(
        |c: char|
            if c == '.' || is_alphanumeric(c) {
                c
            } else {
                ' '
            },
    );
    let mut out: Vec<char> = Vec::new();
    let mut i: usize = 0;
    while i < v.len()
        invariant
            i <= v@.len(),
            v@ == s@,
            out@ =~= spaced.take(i as int),
            spaced == s@.map_values(
                |c: char|
                    if c == '.' || is_alphanumeric(c) {
                        c
                    } else {
                        ' '
                    },
            ),
        decreases v@.len() - i,
    {
        out.push(
            if v[i] == '.' || alphanumeric(v[i]) {
                v[i]
            } else {
                ' '
            },
        );
        i += 1;
    }
    assert(out@.subrange(0, out@.len() as int) =~= spaced);
    split(string_of(out.as_slice(), 0, out.len()).as_str(), ' ')
}

/// Where the digits begin that the first `end` characters end with.
fn digits_start(v: &[char], end: usize) -> (r: usize)
    requires
        end <= v@.len(),
    ensures
        r <= end,
        v@.subrange(r as int, end as int) == trailing_digits(v@.take(end as int)),
{
    let ghost head = v@.take(end as int);
    let mut from: usize = end;
    assert(head.take(end as int) =~= head);
    assert(trailing_digits(head.take(end as int)) + head.skip(end as int) =~= trailing_digits(
        head,
    ));
    while from > 0 && digit_is(v[from - 1])
        invariant
            from <= end <= v@.len(),
            head == v@.take(end as int),
            trailing_digits(head.take(from as int)) + head.skip(from as int) == trailing_digits(
                head,
            ),
        decreases from,
    {
        proof {
            let part = head.take(from as int);
            assert(part.last() == v@[from - 1]);
            assert(part.drop_last() =~= head.take(from - 1));
            assert(trailing_digits(head.take(from - 1)).push(part.last()) + head.skip(from as int)
                =~= trailing_digits(head.take(from - 1)) + head.skip(from - 1));
        }
        from -= 1;
    }
    proof {
        let part = head.take(from as int);
        if from > 0 {
            assert(part.last() == v@[from - 1]);
        }
        assert(trailing_digits(part) =~= Seq::<char>::empty());
        assert(head.skip(from as int) =~= trailing_digits(head));
        assert(v@.subrange(from as int, end as int) =~= head.skip(from as int));
    }
    from
}

/// The digits that a text ends with.
fn last_digits(s: &str) -> (r: String)
    ensures
        r@ == trailing_digits(s@),
{
    let v = chars_of(s);
    let n: usize = v.len();
    assert(s@.take(n as int) =~= s@);
    let from: usize = digits_start(v.as_slice(), n);
    string_of(v.as_slice(), from, n)
}

/// The number of parameters that part `i` of a word states.
fn read_parameters(parts: &[String], i: usize) -> (r: Option<u32>)
    requires
        i < parts@.len(),
    ensures
        match r {
            Some(n) => parameters(texts(parts@), i as int) == Some(n as nat),
            None => parameters(texts(parts@), i as int) is None,
        },
{
    let ghost all = texts(parts@);
    assert(all[i as int] == parts@[i as int]@);
    let digits = match strip_suffix(parts[i].as_str(), "b") {
        Some(digits) => digits,
        None => {
            return None;
        },
    };
    if !same(last_digits(digits.as_str()).as_str(), digits.as_str()) {
        return None;
    }
    if i > 0 && !digits.as_str().is_empty() {
        assert(all[i - 1] == parts@[i - 1]@);
        let whole = last_digits(parts[i - 1].as_str());
        if !whole.as_str().is_empty() {
            return parse_u32(whole.as_str());
        }
    }
    parse_u32(digits.as_str())
}

/// The number of parameters that a word states.
fn parameters_in(word: &str) -> (r: Option<u32>)
    ensures
        match r {
            Some(n) => word_parameters(pieces(word@, '.'), 0) == Some(n as nat),
            None => word_parameters(pieces(word@, '.'), 0) is None,
        },
{
    let parts = split(word, '.');
    let ghost all = texts(parts@);
    let mut i: usize = 0;
    while i < parts.len()
        invariant
            i <= parts@.len(),
            all == texts(parts@),
            all == pieces(word@, '.'),
            word_parameters(all, 0) == word_parameters(all, i as int),
        decreases parts@.len() - i,
    {
        if let Some(n) = read_parameters(parts.as_slice(), i) {
            return Some(n);
        }
        i += 1;
    }
    None
}

fn size_tier(n: u32) -> (r: ModelTier)
    ensures
        r == tier_of_size(n as nat),
{
    if n >= 20 {
        ModelTier::Heavy
    } else if n >= 7 {
        ModelTier::Light
    } else {
        ModelTier::Micro
    }
}

/// The tier of a local model, by its name in lower case.
pub fn infer_local_tier(lower: &str) -> (r: ModelTier)
    ensures
        r == local_tier(lower@),
{
    let list = words_in(lower);
    let ghost all = words(lower@);
    let mut plain = ModelTier::Light;
    let mut i: usize = 0;
    while i < list.len()
        invariant_except_break
            plain == ModelTier::Light,
        invariant
            i <= list@.len(),
            texts(list@) == all,
            stated_parameters(all, 0) == stated_parameters(all, i as int),
        ensures
            plain == (match stated_parameters(all, 0) {
                Some(n) => tier_of_size(n),
                None => ModelTier::Light,
            }),
        decreases list@.len() - i,
    {
        assert(all[i as int] == list@[i as int]@);
        if let Some(n) = parameters_in(list[i].as_str()) {
            plain = size_tier(n);
            break;
        }
        i += 1;
    }
    if contains(lower, "coder") || contains(lower, "code") || contains(lower, "rust") || contains(
        lower,
        "instruct",
    ) {
        match plain {
            ModelTier::Micro => ModelTier::Light,
            ModelTier::Light => ModelTier::Heavy,
            ModelTier::Heavy => ModelTier::Heavy,
        }
    } else {
        plain
    }
}

/// The models that are served in the way of OpenAI, under the name of the provider. What a
/// local provider serves is free.
pub open spec fn compatible_model(provider: Seq<char>, model: Seq<char>) -> ModelInfoView {
    let (input, output, tier, limit) = if model == "llama-3.3-70b-versatile"@ {
        (59u32, 79u32, ModelTier::Heavy, 128_000u32)
    } else if model == "llama-3.1-8b-instant"@ {
        (5u32, 8u32, ModelTier::Light, 128_000u32)
    } else if model == "mixtral-8x7b-32768"@ {
        (27u32, 27u32, ModelTier::Light, 32_768u32)
    } else if model == "gpt-4o"@ {
        (250u32, 1000u32, ModelTier::Heavy, 128_000u32)
    } else if model == "gpt-4o-mini"@ {
        (15u32, 60u32, ModelTier::Light, 128_000u32)
    } else if model == "devstral"@ {
        (0u32, 0u32, ModelTier::Heavy, 232_000u32)
    } else if model == "mistral"@ {
        (0u32, 0u32, ModelTier::Light, 200_000u32)
    } else if provider == "lmstudio"@ || provider == "local"@ {
        (0u32, 0u32, local_tier(lowercase(model)), 32_768u32)
    } else {
        (100u32, 300u32, ModelTier::Heavy, 16_000u32)
    };
    ModelInfoView {
        provider,
        model,
        tier,
        input_cents_per_million: input,
        output_cents_per_million: output,
        context_limit: limit,
    }
}

/// The models that are served in the way of OpenAI.
pub fn bundled_model_info(provider: &str, model: &str) -> (r: ModelInfo)
    ensures
        r@ == compatible_model(provider@, model@),
{
    let (input, output, tier, limit): (u32, u32, ModelTier, u32) = if same(
        model,
        "llama-3.3-70b-versatile",
    ) {
        (59, 79, ModelTier::Heavy, 128_000)
    } else if same(model, "llama-3.1-8b-instant") {
        (5, 8, ModelTier::Light, 128_000)
    } else if same(model, "mixtral-8x7b-32768") {
        (27, 27, ModelTier::Light, 32_768)
    } else if same(model, "gpt-4o") {
        (250, 1000, ModelTier::Heavy, 128_000)
    } else if same(model, "gpt-4o-mini") {
        (15, 60, ModelTier::Light, 128_000)
    } else if same(model, "devstral") {
        (0, 0, ModelTier::Heavy, 232_000)
    } else if same(model, "mistral") {
        (0, 0, ModelTier::Light, 200_000)
    } else if same(provider, "lmstudio") || same(provider, "local") {
        (0, 0, infer_local_tier(to_lowercase(model).as_str()), 32_768)
    } else {
        (100, 300, ModelTier::Heavy, 16_000)
    };
    ModelInfo {
        provider: provider.to_owned(),
        model: model.to_owned(),
        tier,
        input_cents_per_million: input,
        output_cents_per_million: output,
        context_limit: limit,
    }
}

/// Whether `lower` begins with the name of a model that is known to be heavy.
pub open spec fn known_heavy(lower: Seq<char>) -> bool {
    ||| "qwen2.5-coder:32b"@.is_prefix_of(lower)
    ||| "qwen2.5:32b"@.is_prefix_of(lower)
    ||| "qwen2.5:72b"@.is_prefix_of(lower)
    ||| "llama3.3:70b"@.is_prefix_of(lower)
    ||| "llama3.1:70b"@.is_prefix_of(lower)
    ||| "llama3:70b"@.is_prefix_of(lower)
    ||| "deepseek-coder-v2"@.is_prefix_of(lower)
    ||| "deepseek-r1:32b"@.is_prefix_of(lower)
    ||| "deepseek-r1:70b"@.is_prefix_of(lower)
    ||| "mixtral:8x7b"@.is_prefix_of(lower)
    ||| "mixtral:8x22b"@.is_prefix_of(lower)
    ||| "codellama:34b"@.is_prefix_of(lower)
    ||| "codellama:70b"@.is_prefix_of(lower)
    ||| "command-r-plus"@.is_prefix_of(lower)
}

/// The last position up to `from` at which `pat` stands in `s`.
pub open spec fn last_to(s: Seq<char>, pat: Seq<char>, from: int) -> Option<int>
    decreases from + 1,
{
    if from < 0 {
        None
    } else if occurs_at(s, pat, from) {
        Some(from)
    } else {
        last_to(s, pat, from - 1)
    }
}

/// The number of parameters, in whole billions, that a text ends with: digits, perhaps a point and
/// digits.
pub open spec fn ending_parameters(s: Seq<char>) -> Option<nat> {
    let digits = trailing_digits(s);
    unsigned_of(
        whole_part(before_suffix(s.take(s.len() - digits.len()), "."@), digits),
        u32::MAX as nat,
    )
}

/// The number of parameters before the last occurrence of `suffix` in `lower`.
pub open spec fn parameters_before(lower: Seq<char>, suffix: Seq<char>) -> Option<nat> {
    match last_to(lower, suffix, lower.len() as int) {
        Some(k) => ending_parameters(lower.take(k)),
        None => None,
    }
}

/// What may follow the number of parameters in the name of a model, in the order in which it
/// is looked for.
pub open spec fn size_suffixes() -> Seq<Seq<char>> {
    seq!["b-instruct"@, "b_instruct"@, "b-chat"@, "b_chat"@, "b-q"@, "b:q"@, "b"@]
}

/// The number of parameters that is found first, from suffix `i` on.
pub open spec fn found_parameters(lower: Seq<char>, i: int) -> Option<nat>
    decreases size_suffixes().len() - i,
{
    if i < 0 || i >= size_suffixes().len() {
        None
    } else {
        match parameters_before(lower, size_suffixes()[i]) {
            Some(n) => Some(n),
            None => found_parameters(lower, i + 1),
        }
    }
}

/// The tier of a model by its name: models that are known, then the number of parameters.
pub open spec fn named_tier(model: Seq<char>) -> ModelTier {
    let lower = lowercase(model);
    if known_heavy(lower) {
        ModelTier::Heavy
    } else {
        match found_parameters(lower, 0) {
            Some(n) => tier_of_size(n),
            None => ModelTier::Light,
        }
    }
}

fn is_known_heavy(lower: &str) -> (r: bool)
    ensures
        r == known_heavy(lower@),
{
    starts_with(lower, "qwen2.5-coder:32b") || starts_with(lower, "qwen2.5:32b") || starts_with(
        lower,
        "qwen2.5:72b",
    ) || starts_with(lower, "llama3.3:70b") || starts_with(lower, "llama3.1:70b") || starts_with(
        lower,
        "llama3:70b",
    ) || starts_with(lower, "deepseek-coder-v2") || starts_with(lower, "deepseek-r1:32b")
        || starts_with(lower, "deepseek-r1:70b") || starts_with(lower, "mixtral:8x7b")
        || starts_with(lower, "mixtral:8x22b") || starts_with(lower, "codellama:34b")
        || starts_with(lower, "codellama:70b") || starts_with(lower, "command-r-plus")
}

fn find_parameters(lower: &str, suffix: &str) -> (r: Option<u32>)
    ensures
        match r {
            Some(n) => parameters_before(lower@, suffix@) == Some(n as nat),
            None => parameters_before(lower@, suffix@) is None,
        },
{
    let v = chars_of(lower);
    let n: usize = v.len();
    let mut k: usize = n;
    loop
        invariant
            n == v@.len(),
            v@ == lower@,
            k <= n,
            last_to(lower@, suffix@, lower@.len() as int) == last_to(lower@, suffix@, k as int),
        ensures
            k <= n,
            last_to(lower@, suffix@, lower@.len() as int) == Some(k as int),
        decreases k,
    {
        let rest = string_of(v.as_slice(), k, n);
        proof {
            assert(rest@ =~= lower@.skip(k as int));
            if k + suffix@.len() <= n {
                assert(rest@.take(suffix@.len() as int) =~= lower@.subrange(
                    k as int,
                    k + suffix@.len(),
                ));
            }
            assert(suffix@.is_prefix_of(rest@) == occurs_at(lower@, suffix@, k as int)) by {
                if suffix@.is_prefix_of(rest@) {
                    assert(rest@.take(suffix@.len() as int) =~= suffix@);
                }
                if occurs_at(lower@, suffix@, k as int) {
                    assert(rest@.take(suffix@.len() as int) =~= suffix@);
                }
            }
        }
        if starts_with(rest.as_str(), suffix) {
            break;
        }
        if k == 0 {
            reveal_with_fuel(last_to, 2);
            return None;
        }
        k -= 1;
    }
    let from: usize = digits_start(v.as_slice(), k);
    let ghost head = lower@.take(k as int);
    let digits = string_of(v.as_slice(), from, k);
    let before = string_of(v.as_slice(), 0, from);
    proof {
        assert(digits@ == trailing_digits(head));
        assert(before@ =~= head.take(head.len() - digits@.len()));
    }
    if !digits.as_str().is_empty() {
        if let Some(text) = strip_suffix(before.as_str(), ".") {
            let whole = last_digits(text.as_str());
            if !whole.as_str().is_empty() {
                return parse_u32(whole.as_str());
            }
        }
    }
    parse_u32(digits.as_str())
}

/// The tier of a model by its name.
pub fn infer_tier(model: &str) -> (r: ModelTier)
    ensures
        r == named_tier(model@),
{
    let lower = to_lowercase(model);
    if is_known_heavy(lower.as_str()) {
        return ModelTier::Heavy;
    }
    let suffixes = ["b-instruct", "b_instruct", "b-chat", "b_chat", "b-q", "b:q", "b"];
    let mut i: usize = 0;
    while i < 7
        invariant
            i <= 7,
            lower@ == lowercase(model@),
            !known_heavy(lower@),
            suffixes@.len() == 7,
            forall|k: int| 0 <= k < 7 ==> (#[trigger] suffixes@[k])@ == size_suffixes()[k],
            found_parameters(lower@, 0) == found_parameters(lower@, i as int),
        decreases 7 - i,
    {
        assert(suffixes@[i as int]@ == size_suffixes()[i as int]);
        if let Some(n) = find_parameters(lower.as_str(), suffixes[i]) {
            return size_tier(n);
        }
        i += 1;
    }
    ModelTier::Light
}

/// The models that Ollama serves. How much they take is not known until it has been tried.
pub open spec fn ollama_model(model: Seq<char>) -> ModelInfoView {
    ModelInfoView {
        provider: "ollama"@,
        model,
        tier: named_tier(model),
        input_cents_per_million: 0,
        output_cents_per_million: 0,
        context_limit: 3500,
    }
}

/// The models that Ollama serves.
pub fn ollama_info(model: &str) -> (r: ModelInfo)
    ensures
        r@ == ollama_model(model@),
{
    ModelInfo {
        provider: "ollama".to_owned(),
        model: model.to_owned(),
        tier: infer_tier(model),
        input_cents_per_million: 0,
        output_cents_per_million: 0,
        context_limit: 3500,
    }
}

} // verus!
