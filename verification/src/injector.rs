//! Text injection: the command line that types text into the focused
//! window with xdotool or ydotool.
use vstd::prelude::*;

use crate::config::{backend_name, Backend, InjectorConfig};

verus! {

/// The decimal digit for `d < 10`.
pub open spec fn digit_char(d: nat) -> char {
    if d == 0 {
        '0'
    } else if d == 1 {
        '1'
    } else if d == 2 {
        '2'
    } else if d == 3 {
        '3'
    } else if d == 4 {
        '4'
    } else if d == 5 {
        '5'
    } else if d == 6 {
        '6'
    } else if d == 7 {
        '7'
    } else if d == 8 {
        '8'
    } else {
        '9'
    }
}

/// The decimal notation of `n`, without leading zeros.
pub open spec fn decimal(n: nat) -> Seq<char>
    decreases n,
{
    if n < 10 {
        seq![digit_char(n)]
    } else {
        decimal(n / 10).push(digit_char(n % 10))
    }
}

fn digit_str(d: u64) -> (s: &'static str)
    requires
        d < 10,
    ensures
        s@ == seq![digit_char(d as nat)],
{
    proof {
        reveal_strlit("0");
        reveal_strlit("1");
        reveal_strlit("2");
        reveal_strlit("3");
        reveal_strlit("4");
        reveal_strlit("5");
        reveal_strlit("6");
        reveal_strlit("7");
        reveal_strlit("8");
        reveal_strlit("9");
    }
    if d == 0 {
        "0"
    } else if d == 1 {
        "1"
    } else if d == 2 {
        "2"
    } else if d == 3 {
        "3"
    } else if d == 4 {
        "4"
    } else if d == 5 {
        "5"
    } else if d == 6 {
        "6"
    } else if d == 7 {
        "7"
    } else if d == 8 {
        "8"
    } else {
        "9"
    }
}

/// The decimal notation of `n`.
pub fn decimal_string(n: u64) -> (s: String)
    ensures
        s@ == decimal(n as nat),
{
    // digits[k] is the k-th digit from the right
    let mut digits: Vec<u64> = Vec::new();
    let mut m = n;
    assert(decimal(n as nat) + digits_text(digits@) =~= decimal(n as nat));
    loop
        invariant
            m <= n,
            forall|k: int| 0 <= k < digits.len() ==> #[trigger] digits@[k] < 10,
            decimal(n as nat) == decimal(m as nat) + digits_text(digits@),
        ensures
            m < 10,
            forall|k: int| 0 <= k < digits.len() ==> #[trigger] digits@[k] < 10,
            decimal(n as nat) == decimal(m as nat) + digits_text(digits@),
        decreases m,
    {
        if m < 10 {
            break;
        }
        let d = m % 10;
        proof {
            assert(decimal(m as nat) == decimal((m / 10) as nat).push(digit_char((m % 10) as nat)));
            assert(digits_text(digits@.push(d)) =~= seq![digit_char(d as nat)] + digits_text(
                digits@,
            )) by {
                lemma_digits_text_push(digits@, d);
            }
            assert(decimal((m / 10) as nat).push(digit_char(d as nat)) + digits_text(digits@)
                =~= decimal((m / 10) as nat) + (seq![digit_char(d as nat)] + digits_text(digits@)));
        }
        digits.push(d);
        m = m / 10;
    }
    let mut s = String::from_str(digit_str(m));
    let mut k = digits.len();
    proof {
        assert(decimal(m as nat) == seq![digit_char(m as nat)]);
        assert(digits@.subrange(0, k as int) =~= digits@);
    }
    while k > 0
        invariant
            k <= digits.len(),
            forall|q: int| 0 <= q < digits.len() ==> #[trigger] digits@[q] < 10,
            decimal(n as nat) == s@ + digits_text(digits@.subrange(0, k as int)),
        decreases k,
    {
        k = k - 1;
        let ghost before = s@;
        s.append(digit_str(digits[k]));
        proof {
            lemma_digits_text_push(digits@.subrange(0, k as int), digits@[k as int]);
            assert(digits@.subrange(0, k as int).push(digits@[k as int]) =~= digits@.subrange(
                0,
                k + 1,
            ));
            assert(before + (seq![digit_char(digits@[k as int] as nat)] + digits_text(
                digits@.subrange(0, k as int),
            )) =~= s@ + digits_text(digits@.subrange(0, k as int)));
        }
    }
    assert(digits_text(digits@.subrange(0, 0)) =~= Seq::<char>::empty());
    assert(s@ + Seq::<char>::empty() =~= s@);
    s
}

/// The digits, least significant first, written most significant first.
pub open spec fn digits_text(ds: Seq<u64>) -> Seq<char>
    decreases ds.len(),
{
    if ds.len() == 0 {
        seq![]
    } else {
        digits_text(ds.drop_first()) + seq![digit_char(ds[0] as nat)]
    }
}

proof fn lemma_digits_text_push(ds: Seq<u64>, d: u64)
    ensures
        digits_text(ds.push(d)) == seq![digit_char(d as nat)] + digits_text(ds),
    decreases ds.len(),
{
    if ds.len() == 0 {
        assert(ds.push(d).drop_first() =~= ds);
        assert(digits_text(ds) =~= Seq::<char>::empty());
        assert(Seq::<char>::empty() + seq![digit_char(d as nat)] =~= seq![digit_char(d as nat)]
            + Seq::<char>::empty());
    } else {
        assert(ds.push(d).drop_first() =~= ds.drop_first().push(d));
        lemma_digits_text_push(ds.drop_first(), d);
        assert(ds.push(d)[0] == ds[0]);
        assert((seq![digit_char(d as nat)] + digits_text(ds.drop_first())) + seq![
            digit_char(ds[0] as nat),
        ] =~= seq![digit_char(d as nat)] + (digits_text(ds.drop_first()) + seq![
            digit_char(ds[0] as nat),
        ]));
    }
}

/// The program and arguments of one typing command.
pub struct InjectCommand {
    pub program: String,
    pub args: Vec<String>,
}

/// The option that sets the delay between keystrokes.
pub open spec fn delay_flag(b: Backend) -> Seq<char> {
    match b {
        Backend::Xdotool => "--delay"@,
        Backend::Ydotool => "--key-delay"@,
    }
}

/// The arguments that type `text` with a `delay` ms pause between keys.
pub open spec fn inject_args(b: Backend, delay: u32, text: Seq<char>) -> Seq<Seq<char>> {
    seq!["type"@, delay_flag(b), decimal(delay as nat), "--"@, text]
}

/// Types text into the focused window through an external tool.
pub struct TextInjector {
    backend: Backend,
    inter_key_delay_ms: u32,
}

impl TextInjector {
    /// The tool used.
    pub closed spec fn tool(&self) -> Backend {
        self.backend
    }

    /// The pause between keystrokes, in milliseconds.
    pub closed spec fn delay(&self) -> u32 {
        self.inter_key_delay_ms
    }

    /// An injector set up as `config` says.
    pub fn new(config: &InjectorConfig) -> (r: Self)
        ensures
            r.tool() == config.backend,
            r.delay() == config.inter_key_delay_ms,
    {
        TextInjector { backend: config.backend, inter_key_delay_ms: config.inter_key_delay_ms }
    }

    /// The tool used.
    pub fn backend(&self) -> (b: Backend)
        ensures
            b == self.tool(),
    {
        self.backend
    }

    /// The command that types `text`, or `None` for empty text, which needs
    /// no command.
    pub fn command(&self, text: &str) -> (r: Option<InjectCommand>)
        ensures
            r is None <==> text@.len() == 0,
            r matches Some(c) ==> c.program@ == backend_name(self.tool()) && c.args.deep_view()
                == inject_args(self.tool(), self.delay(), text@),
    {
        if text.is_empty() {
            return None;
        }
        let delay = decimal_string(self.inter_key_delay_ms as u64);
        let flag = match self.backend {
            Backend::Xdotool => String::from_str("--delay"),
            Backend::Ydotool => String::from_str("--key-delay"),
        };
        let args = vec![String::from_str("type"), flag, delay, String::from_str("--"), String::from_str(text)];
        assert(args.deep_view() =~= inject_args(self.tool(), self.delay(), text@));
        Some(InjectCommand { program: self.backend.to_string(), args })
    }
}

} // verus!
