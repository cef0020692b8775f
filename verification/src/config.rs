//! The settings of the relay, as its command line gives them.

use vstd::prelude::*;
use vstd::string::StringExecFns;
use crate::color::{parsed_color, Color, Interpolation};
use crate::number::{parse_number, parsed_number};
use crate::text::{chars_of, lowercased, string_of};

verus! {

/// Whether a character parts two colour tokens.
pub open spec fn is_separator(c: char) -> bool {
    c == ',' || c == ';'
}

/// The tokens of a colour list: what stands before, between and after its
/// separators. A list without a separator is one token, the empty list too.
pub open spec fn split_tokens(list: Seq<char>) -> Seq<Seq<char>>
    decreases list.len(),
{
    if list.len() == 0 {
        seq![Seq::empty()]
    } else {
        let before = split_tokens(list.drop_last());
        if is_separator(list.last()) {
            before.push(Seq::empty())
        } else {
            before.drop_last().push(before.last().push(list.last()))
        }
    }
}

/// The colours that the tokens from `at` on give, three tokens to a colour, or
/// the message for what is wrong first: a token that is no channel, or a
/// colour without its green or its blue token.
pub open spec fn parsed_colors(tokens: Seq<Seq<char>>, at: int) -> Result<Seq<Color>, Seq<char>>
    decreases tokens.len() - at,
{
    if at < 0 || at >= tokens.len() {
        Ok(Seq::empty())
    } else if at + 1 >= tokens.len() {
        Err("no green value"@)
    } else if at + 2 >= tokens.len() {
        Err("no blue value"@)
    } else {
        match parsed_color(tokens[at], tokens[at + 1], tokens[at + 2]) {
            Err(message) => Err(message),
            Ok(color) => match parsed_colors(tokens, at + 3) {
                Err(message) => Err(message),
                Ok(rest) => Ok(seq![color] + rest),
            },
        }
    }
}

/// A colour list has at least one token.
pub proof fn lemma_split_not_empty(list: Seq<char>)
    ensures
        split_tokens(list).len() >= 1,
    decreases list.len(),
{
    if list.len() > 0 {
        lemma_split_not_empty(list.drop_last());
    }
}

/// No token of a colour list holds a separator.
pub proof fn lemma_tokens_hold_no_separator(list: Seq<char>)
    ensures
        forall|k: int, i: int|
            0 <= k < split_tokens(list).len() && 0 <= i < split_tokens(list)[k].len()
                ==> !is_separator(#[trigger] split_tokens(list)[k][i]),
    decreases list.len(),
{
    if list.len() > 0 {
        let before = split_tokens(list.drop_last());
        lemma_tokens_hold_no_separator(list.drop_last());
        lemma_split_not_empty(list.drop_last());
        let tokens = split_tokens(list);
        assert forall|k: int, i: int|
            0 <= k < tokens.len() && 0 <= i < tokens[k].len() implies !is_separator(
            #[trigger] tokens[k][i],
        ) by {
            if is_separator(list.last()) {
                assert(tokens[k] == before[k]);
            } else if k < tokens.len() - 1 {
                assert(tokens[k] == before[k]);
            } else if i < before.last().len() {
                assert(tokens[k][i] == before.last()[i]);
            }
        }
    }
}

/// A colour list that is read at all gives at least one colour.
pub proof fn lemma_colors_not_empty(list: Seq<char>)
    ensures
        parsed_colors(split_tokens(list), 0) matches Ok(colors) ==> colors.len() >= 1,
{
    lemma_split_not_empty(list);
}

/// Settings that a command line gives name an address and at least one
/// colour.
pub proof fn lemma_config_complete(args: Seq<Seq<char>>, at: int, so_far: Settings)
    requires
        so_far.colors.len() >= 1,
    ensures
        parsed_options(args, at, so_far) matches Ok(settings) ==> settings.colors.len() >= 1
            && settings.connect_address.len() >= 1,
    decreases args.len() - at,
{
    if 0 <= at < args.len() {
        if names(args[at], "-s"@, "--shift"@) {
            lemma_config_complete(args, at + 1, Settings { shift: false, ..so_far });
        } else if takes_value(args[at]) && at + 1 < args.len() {
            lemma_colors_not_empty(args[at + 1]);
            match with_value(args[at], args[at + 1], so_far) {
                Ok(next) => {
                    lemma_config_complete(args, at + 2, next);
                },
                Err(_) => {},
            }
        }
    }
}

/// The characters of each string.
pub open spec fn texts(strings: Seq<String>) -> Seq<Seq<char>> {
    Seq::new(strings.len(), |i: int| strings[i]@)
}

/// The interpolation that a name stands for, letter case aside.
pub open spec fn named_interpolation(name: Seq<char>) -> Option<Interpolation> {
    let lower = lowercased(name);
    if lower == "random"@ {
        Some(Interpolation::Random)
    } else if lower == "nearest"@ {
        Some(Interpolation::Nearest)
    } else if lower == "linear"@ {
        Some(Interpolation::Linear)
    } else if lower == "cubic"@ {
        Some(Interpolation::Cubic)
    } else {
        None
    }
}

/// What a `Config` holds.
pub struct Settings {
    pub connect_address: Seq<char>,
    pub colors: Seq<Color>,
    pub shift: bool,
    pub interpolation: Interpolation,
    pub port: u32,
}

/// The settings before any option is read: no address, a gradient from red
/// over green to blue, shifting on, straight-line mixing, port 8888.
pub open spec fn default_settings() -> Settings {
    Settings {
        connect_address: Seq::empty(),
        colors: seq![
            Color { r: 255, g: 0, b: 0 },
            Color { r: 0, g: 255, b: 0 },
            Color { r: 0, g: 0, b: 255 },
        ],
        shift: true,
        interpolation: Interpolation::Linear,
        port: 8888,
    }
}

/// Whether `arg` is the option with this short and this long name.
pub open spec fn names(arg: Seq<char>, short: Seq<char>, long: Seq<char>) -> bool {
    arg == short || arg == long
}

/// The settings after `option`, which takes the argument `value`, or the
/// message for a value that the option does not accept.
pub open spec fn with_value(option: Seq<char>, value: Seq<char>, so_far: Settings) -> Result<
    Settings,
    Seq<char>,
> {
    if names(option, "-c"@, "--connect-address"@) {
        Ok(Settings { connect_address: value, ..so_far })
    } else if names(option, "-C"@, "--colors"@) {
        match parsed_colors(split_tokens(value), 0) {
            Ok(colors) => Ok(Settings { colors, ..so_far }),
            Err(message) => Err(message),
        }
    } else if names(option, "-i"@, "--interpolation"@) {
        match named_interpolation(value) {
            Some(interpolation) => Ok(Settings { interpolation, ..so_far }),
            None => Err(option + " is not a valid interpolation"@),
        }
    } else if names(option, "-p"@, "--port"@) {
        match parsed_number(value, u32::MAX as nat) {
            Ok(port) => Ok(Settings { port: port as u32, ..so_far }),
            Err(e) => Err(e.text() + " cannot be converted to port"@),
        }
    } else {
        Err("unknown option: "@ + option)
    }
}

/// Whether `arg` is an option that takes an argument.
pub open spec fn takes_value(arg: Seq<char>) -> bool {
    names(arg, "-c"@, "--connect-address"@) || names(arg, "-C"@, "--colors"@) || names(
        arg,
        "-i"@,
        "--interpolation"@,
    ) || names(arg, "-p"@, "--port"@)
}

/// The settings that the arguments from `at` on lead to, starting from
/// `so_far`, or the message for the first thing that is wrong: an option
/// without its argument, an argument that its option does not accept, an
/// unknown option, or at the end no address to connect to.
pub open spec fn parsed_options(args: Seq<Seq<char>>, at: int, so_far: Settings) -> Result<
    Settings,
    Seq<char>,
>
    decreases args.len() - at,
{
    if at < 0 || at >= args.len() {
        if so_far.connect_address.len() == 0 {
            Err("must have -c or --connect-address option specified"@)
        } else {
            Ok(so_far)
        }
    } else if names(args[at], "-s"@, "--shift"@) {
        parsed_options(args, at + 1, Settings { shift: false, ..so_far })
    } else if takes_value(args[at]) {
        if at + 1 >= args.len() {
            Err(args[at] + " has no argument"@)
        } else {
            match with_value(args[at], args[at + 1], so_far) {
                Ok(next) => parsed_options(args, at + 2, next),
                Err(message) => Err(message),
            }
        }
    } else {
        Err("unknown option: "@ + args[at])
    }
}

/// What a command line means. Its first word, the name of the program, is
/// passed over.
pub open spec fn parsed_config(args: Seq<Seq<char>>) -> Result<Settings, Seq<char>> {
    parsed_options(args, 1, default_settings())
}

/// The settings of the relay.
#[derive(Debug, PartialEq, Eq)]
pub struct Config {
    pub connect_address: String,
    pub colors: Vec<Color>,
    pub shift: bool,
    pub interpolation: Interpolation,
    pub port: u32,
}

impl View for Config {
    type V = Settings;

    open spec fn view(&self) -> Settings {
        Settings {
            connect_address: self.connect_address@,
            colors: self.colors@,
            shift: self.shift,
            interpolation: self.interpolation,
            port: self.port,
        }
    }
}

/// A list of colours as text, cut into its tokens.
pub struct ColorParser {
    colors: Vec<String>,
}

impl View for ColorParser {
    type V = Seq<Seq<char>>;

    closed spec fn view(&self) -> Seq<Seq<char>> {
        texts(self.colors@)
    }
}

impl ColorParser {
    /// Cuts a colour list at each `,` and `;`.
    pub fn new(colors: String) -> (parser: Self)
        ensures
            parser@ == split_tokens(colors@),
    {
        let list = chars_of(colors.as_str());
        let mut tokens: Vec<String> = Vec::new();
        let mut token: Vec<char> = Vec::new();
        let mut at: usize = 0;
        assert(list@.take(0) =~= Seq::<char>::empty());
        assert(texts(tokens@).push(token@) =~= split_tokens(list@.take(0)));
        while at < list.len()
            invariant
                at <= list.len(),
                texts(tokens@).push(token@) == split_tokens(list@.take(at as int)),
            decreases list.len() - at,
        {
            let c: char = list[at];
            let ghost before = texts(tokens@).push(token@);
            assert(list@.take(at as int + 1).drop_last() =~= list@.take(at as int));
            assert(list@.take(at as int + 1).last() == c);
            if c == ',' || c == ';' {
                tokens.push(string_of(&token));
                token = Vec::new();
                assert(texts(tokens@).push(token@) =~= before.push(Seq::empty()));
            } else {
                token.push(c);
                assert(texts(tokens@).push(token@) =~= before.drop_last().push(
                    before.last().push(c),
                ));
            }
            at += 1;
        }
        assert(list@.take(list.len() as int) =~= list@);
        let ghost before = texts(tokens@).push(token@);
        tokens.push(string_of(&token));
        assert(texts(tokens@) =~= before);
        ColorParser { colors: tokens }
    }

    /// Reads the tokens as colours, three to a colour.
    pub fn parse(&self) -> (colors: Result<Vec<Color>, String>)
        ensures
            match colors {
                Ok(list) => parsed_colors(self@, 0) == Ok::<Seq<Color>, Seq<char>>(list@),
                Err(message) => parsed_colors(self@, 0) == Err::<Seq<Color>, Seq<char>>(message@),
            },
    {
        let mut parsed: Vec<Color> = Vec::new();
        let mut at: usize = 0;
        let ghost tokens = self@;
        assert(Seq::<Color>::empty() + parsed_colors(tokens, 0)->Ok_0 =~= parsed_colors(
            tokens,
            0,
        )->Ok_0);
        while at < self.colors.len()
            invariant
                at <= self.colors.len(),
                tokens == texts(self.colors@),
                parsed_colors(tokens, 0) == match parsed_colors(tokens, at as int) {
                    Ok(rest) => Ok::<Seq<Color>, Seq<char>>(parsed@ + rest),
                    Err(message) => Err::<Seq<Color>, Seq<char>>(message),
                },
            decreases self.colors.len() - at,
        {
            if self.colors.len() - at < 2 {
                return Err("no green value".to_owned());
            }
            if self.colors.len() - at < 3 {
                return Err("no blue value".to_owned());
            }
            let r = self.colors[at].as_str();
            let g = self.colors[at + 1].as_str();
            let b = self.colors[at + 2].as_str();
            match Color::try_from([r, g, b]) {
                Ok(color) => {
                    let ghost before = parsed@;
                    parsed.push(color);
                    proof {
                        let rest = parsed_colors(tokens, at + 3);
                        if rest is Ok {
                            assert(parsed@ + rest->Ok_0 =~= before + (seq![color] + rest->Ok_0));
                        }
                    }
                },
                Err(message) => {
                    return Err(message);
                },
            }
            at += 3;
        }
        assert(parsed@ + Seq::<Color>::empty() =~= parsed@);
        Ok(parsed)
    }
}

/// The interpolation that a name stands for, letter case aside.
pub fn interpolation_named(name: &str) -> (interpolation: Option<Interpolation>)
    ensures
        interpolation == named_interpolation(name@),
{
    let lower = name.to_lowercase();
    if lower.as_str().eq("random") {
        Some(Interpolation::Random)
    } else if lower.as_str().eq("nearest") {
        Some(Interpolation::Nearest)
    } else if lower.as_str().eq("linear") {
        Some(Interpolation::Linear)
    } else if lower.as_str().eq("cubic") {
        Some(Interpolation::Cubic)
    } else {
        None
    }
}

/// Whether `arg` is one of two names.
fn is_named(arg: &str, short: &str, long: &str) -> (named: bool)
    ensures
        named == names(arg@, short@, long@),
{
    arg.eq(short) || arg.eq(long)
}

/// `text` with `tail` behind it.
fn joined(text: &str, tail: &str) -> (whole: String)
    ensures
        whole@ == text@ + tail@,
{
    let mut whole = text.to_owned();
    whole.append(tail);
    whole
}

impl Config {
    /// Reads the settings from a command line, whose first word is the name
    /// of the program.
    pub fn parse(args: Vec<String>) -> (config: Result<Self, String>)
        ensures
            match config {
                Ok(settings) => parsed_config(texts(args@)) == Ok::<Settings, Seq<char>>(
                    settings@,
                ),
                Err(message) => parsed_config(texts(args@)) == Err::<Settings, Seq<char>>(
                    message@,
                ),
            },
            config matches Ok(settings) ==> settings.colors@.len() >= 1
                && settings.connect_address@.len() >= 1,
    {
        proof {
            lemma_config_complete(texts(args@), 1, default_settings());
        }
        let mut config = Config {
            connect_address: String::new(),
            colors: vec![Color::new(255, 0, 0), Color::new(0, 255, 0), Color::new(0, 0, 255)],
            shift: true,
            interpolation: Interpolation::Linear,
            port: 8888,
        };
        assert(config@.colors =~= default_settings().colors);
        let ghost words = texts(args@);
        let mut at: usize = 1;
        while at < args.len()
            invariant
                1 <= at,
                words == texts(args@),
                parsed_config(words) == parsed_options(words, at as int, config@),
            decreases args.len() - at,
        {
            let arg = args[at].as_str();
            assert(arg@ == words[at as int]);
            if is_named(arg, "-s", "--shift") {
                config.shift = false;
                at += 1;
                continue ;
            }
            let connect: bool = is_named(arg, "-c", "--connect-address");
            let colors: bool = is_named(arg, "-C", "--colors");
            let interpolation: bool = is_named(arg, "-i", "--interpolation");
            let port: bool = is_named(arg, "-p", "--port");
            if !(connect || colors || interpolation || port) {
                return Err(joined("unknown option: ", arg));
            }
            if args.len() - at < 2 {
                return Err(joined(arg, " has no argument"));
            }
            let value = args[at + 1].as_str();
            assert(value@ == words[at + 1]);
            if connect {
                config.connect_address = value.to_owned();
            } else if colors {
                match ColorParser::new(value.to_owned()).parse() {
                    Ok(list) => {
                        config.colors = list;
                    },
                    Err(message) => {
                        return Err(message);
                    },
                }
            } else if interpolation {
                match interpolation_named(value) {
                    Some(found) => {
                        config.interpolation = found;
                    },
                    None => {
                        return Err(joined(arg, " is not a valid interpolation"));
                    },
                }
            } else {
                match parse_number(value, u32::MAX) {
                    Ok(number) => {
                        config.port = number;
                    },
                    Err(e) => {
                        return Err(joined(e.to_string().as_str(), " cannot be converted to port"));
                    },
                }
            }
            at += 2;
        }
        if config.connect_address.as_str().is_empty() {
            return Err("must have -c or --connect-address option specified".to_owned());
        }
        Ok(config)
    }
}

} // verus!
