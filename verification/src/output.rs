use vstd::prelude::*;

verus! {

/// The decimal digits of `n`, without leading zeros.
pub open spec fn decimal(n: nat) -> Seq<char>
    decreases n,
{
    if n < 10 {
        seq![(('0' as int) + n) as char]
    } else {
        decimal(n / 10).push((('0' as int) + n % 10) as char)
    }
}

/// The number that a string of decimal digits spells, most significant first.
pub open spec fn digits_value(s: Seq<char>) -> int
    decreases s.len(),
{
    if s.len() == 0 {
        0
    } else {
        digits_value(s.drop_last()) * 10 + (s.last() as int - '0' as int)
    }
}

/// The decimal digits of `n` are digits, spell `n`, and start with a zero
/// only where `n` is zero itself.
pub proof fn lemma_decimal_spells(n: nat)
    ensures
        decimal(n).len() >= 1,
        forall|i: int| 0 <= i < decimal(n).len() ==> '0' <= #[trigger] decimal(n)[i] <= '9',
        digits_value(decimal(n)) == n,
        decimal(n)[0] == '0' ==> n == 0,
    decreases n,
{
    if n >= 10 {
        lemma_decimal_spells(n / 10);
        let d = decimal(n);
        assert(d.drop_last() =~= decimal(n / 10));
        assert(d[0] == decimal(n / 10)[0]);
        assert forall|i: int| 0 <= i < d.len() implies '0' <= #[trigger] d[i] <= '9' by {
            if i < d.len() - 1 {
                assert(d[i] == decimal(n / 10)[i]);
            }
        }
        assert(d.last() as int == '0' as int + n % 10);
        assert(digits_value(d) == digits_value(decimal(n / 10)) * 10 + n % 10);
    } else {
        let d = decimal(n);
        assert(d.drop_last() =~= Seq::<char>::empty());
        assert(d.last() as int == '0' as int + n);
        assert(digits_value(d) == digits_value(d.drop_last()) * 10 + (d.last() as int - '0' as int));
    }
}

/// The name an output without a name of its own goes by: `output-` and its id.
pub open spec fn fallback_name(id: u32) -> Seq<char> {
    "output-"@ + decimal(id as nat)
}

/// The decimal digit `d` as a one-character string.
fn digit_str(d: u32) -> (s: &'static str)
    requires
        d < 10,
    ensures
        s@ == seq![(('0' as int) + d) as char],
{
    let s = match d {
        0 => {
            proof {
                reveal_strlit("0");
            }
            "0"
        },
        1 => {
            proof {
                reveal_strlit("1");
            }
            "1"
        },
        2 => {
            proof {
                reveal_strlit("2");
            }
            "2"
        },
        3 => {
            proof {
                reveal_strlit("3");
            }
            "3"
        },
        4 => {
            proof {
                reveal_strlit("4");
            }
            "4"
        },
        5 => {
            proof {
                reveal_strlit("5");
            }
            "5"
        },
        6 => {
            proof {
                reveal_strlit("6");
            }
            "6"
        },
        7 => {
            proof {
                reveal_strlit("7");
            }
            "7"
        },
        8 => {
            proof {
                reveal_strlit("8");
            }
            "8"
        },
        _ => {
            proof {
                reveal_strlit("9");
            }
            "9"
        },
    };
    assert(s@ =~= seq![(('0' as int) + d) as char]);
    s
}

/// Appends the decimal digits of `n` to `s`.
fn push_decimal(s: &mut String, n: u32)
    ensures
        final(s)@ == old(s)@ + decimal(n as nat),
    decreases n,
{
    let ghost start = s@;
    if n >= 10 {
        push_decimal(s, n / 10);
    }
    let ghost mid = s@;
    s.append(digit_str(n % 10));
    proof {
        if n >= 10 {
            assert(mid == start + decimal((n / 10) as nat));
            assert(decimal(n as nat) == decimal((n / 10) as nat).push((('0' as int) + n % 10) as char));
            assert(s@ =~= start + decimal(n as nat));
        } else {
            assert(s@ =~= start + decimal(n as nat));
        }
    }
}

/// The fallback name of output `id`: `output-` and the id's decimal digits.
fn fallback_name_string(id: u32) -> (r: String)
    ensures
        r@ == fallback_name(id),
{
    let mut name = "output-".to_owned();
    push_decimal(&mut name, id);
    name
}

/// The name an output goes by: its own, or else the fallback name.
pub fn output_name(name: &Option<String>, id: u32) -> (r: String)
    ensures
        r@ == match name {
            Some(n) => n@,
            None => fallback_name(id),
        },
{
    match name {
        Some(n) => n.clone(),
        None => fallback_name_string(id),
    }
}

/// What the compositor has told about one output so far.
pub struct OutputInfo<H> {
    /// The bound output object.
    pub handle: Option<H>,
    pub name: Option<String>,
    pub width: u32,
    pub height: u32,
    /// Whether the output's `done` event has arrived.
    pub configured: bool,
}

/// The size of an output, once it is configured with a nonzero mode.
pub open spec fn usable_size<H>(info: OutputInfo<H>) -> Option<(u32, u32)> {
    if info.configured && info.width > 0 && info.height > 0 {
        Some((info.width, info.height))
    } else {
        None
    }
}

impl<H> Default for OutputInfo<H> {
    fn default() -> (r: OutputInfo<H>)
        ensures
            r.handle is None,
            r.name is None,
            r.width == 0,
            r.height == 0,
            !r.configured,
    {
        OutputInfo { handle: None, name: None, width: 0, height: 0, configured: false }
    }
}

impl<H> OutputInfo<H> {
    /// The output's size, once it is configured with a nonzero mode.
    pub fn size(&self) -> (r: Option<(u32, u32)>)
        ensures
            r == usable_size(*self),
    {
        if self.configured && self.width > 0 && self.height > 0 {
            Some((self.width, self.height))
        } else {
            None
        }
    }
}

/// An output that a wallpaper can be drawn on.
pub struct ResolvedOutput<H> {
    pub name: String,
    pub handle: H,
    pub width: u32,
    pub height: u32,
}

/// Whether an output is bound and has a usable size.
pub open spec fn resolvable<H>(info: OutputInfo<H>) -> bool {
    info.handle is Some && usable_size(info) is Some
}

/// The positions, in order, of the resolvable outputs among the first `n` of `outputs`.
pub open spec fn resolvable_positions<H>(outputs: Seq<(u32, OutputInfo<H>)>, n: int) -> Seq<int>
    decreases n,
{
    if n <= 0 {
        seq![]
    } else if resolvable(outputs[n - 1].1) {
        resolvable_positions(outputs, n - 1).push(n - 1)
    } else {
        resolvable_positions(outputs, n - 1)
    }
}

/// `out` is what output `id` with `info` resolves to: its own name or the
/// fallback name, a clone of its handle, and its size.
pub open spec fn resolves_to<H: Clone>(id: u32, info: OutputInfo<H>, out: ResolvedOutput<H>) -> bool {
    &&& out.name@ == match info.name {
        Some(name) => name@,
        None => fallback_name(id),
    }
    &&& info.handle matches Some(handle) && cloned(handle, out.handle)
    &&& usable_size(info) == Some((out.width, out.height))
}

/// The outputs that are bound and configured with a nonzero mode, in order.
/// `outputs` holds each output once, by its id.
pub fn resolve<H: Clone>(outputs: &Vec<(u32, OutputInfo<H>)>) -> (r: Vec<ResolvedOutput<H>>)
    requires
        forall|i: int, j: int| 0 <= i < j < outputs@.len() ==> #[trigger] outputs@[i].0 != #[trigger] outputs@[j].0,
    ensures
        r@.len() == resolvable_positions(outputs@, outputs@.len() as int).len(),
        forall|k: int|
            0 <= k < r@.len() ==> {
                let i = #[trigger] resolvable_positions(outputs@, outputs@.len() as int)[k];
                &&& 0 <= i < outputs@.len()
                &&& resolves_to(outputs@[i].0, outputs@[i].1, r@[k])
            },
{
    let mut resolved: Vec<ResolvedOutput<H>> = Vec::new();
    let mut i: usize = 0;
    while i < outputs.len()
        invariant
            i <= outputs@.len(),
            resolved@.len() == resolvable_positions(outputs@, i as int).len(),
            forall|k: int|
                0 <= k < resolved@.len() ==> {
                    let j = #[trigger] resolvable_positions(outputs@, i as int)[k];
                    &&& 0 <= j < i
                    &&& resolves_to(outputs@[j].0, outputs@[j].1, resolved@[k])
                },
        decreases outputs@.len() - i,
    {
        let (id, info) = &outputs[i];
        let ghost before = resolvable_positions(outputs@, i as int);
        match &info.handle {
            Some(handle) => match info.size() {
                Some((width, height)) => {
                    let name = output_name(&info.name, *id);
                    let handle = handle.clone();
                    resolved.push(ResolvedOutput { name, handle, width, height });
                    assert(resolvable_positions(outputs@, i + 1) == before.push(i as int));
                },
                None => {
                    assert(resolvable_positions(outputs@, i + 1) == before);
                },
            },
            None => {
                assert(resolvable_positions(outputs@, i + 1) == before);
            },
        }
        i = i + 1;
    }
    resolved
}

/// One display mode of an output.
#[derive(Clone, Copy, Debug)]
pub struct OutputMode {
    pub dimensions: (i32, i32),
    pub current: bool,
}

/// The index of the first current mode among the first `n` of `modes`.
pub open spec fn first_current(modes: Seq<OutputMode>, n: int) -> Option<int>
    decreases n,
{
    if n <= 0 {
        None
    } else {
        match first_current(modes, n - 1) {
            Some(i) => Some(i),
            None => if modes[n - 1].current { Some(n - 1) } else { None },
        }
    }
}

/// The size a surface on an output gets: its logical size where both sides
/// are positive, else the dimensions of its first current mode (read as
/// unsigned), else none.
pub open spec fn surface_size(logical_size: Option<(i32, i32)>, modes: Seq<OutputMode>) -> Option<(u32, u32)> {
    match logical_size {
        Some((w, h)) if w > 0 && h > 0 => Some((w as u32, h as u32)),
        _ => match first_current(modes, modes.len() as int) {
            Some(i) => Some((modes[i].dimensions.0 as u32, modes[i].dimensions.1 as u32)),
            None => None,
        },
    }
}

/// The size of the wallpaper surface for an output with `logical_size` and `modes`.
pub fn output_dimensions(logical_size: Option<(i32, i32)>, modes: &[OutputMode]) -> (r: Option<(u32, u32)>)
    ensures
        r == surface_size(logical_size, modes@),
{
    if let Some((w, h)) = logical_size {
        if w > 0 && h > 0 {
            return Some((w as u32, h as u32));
        }
    }
    let mut i: usize = 0;
    while i < modes.len()
        invariant
            i <= modes@.len(),
            first_current(modes@, i as int) is None,
            !(logical_size matches Some((w, h)) && w > 0 && h > 0),
        decreases modes@.len() - i,
    {
        if modes[i].current {
            let ghost n = modes@.len() as int;
            proof {
                assert(first_current(modes@, i + 1) == Some(i as int));
                lemma_first_current_stays(modes@, i + 1, n);
            }
            return Some((modes[i].dimensions.0 as u32, modes[i].dimensions.1 as u32));
        }
        i = i + 1;
    }
    None
}

/// Once a current mode is found among the first `m`, it stays the first one.
proof fn lemma_first_current_stays(modes: Seq<OutputMode>, m: int, n: int)
    requires
        0 <= m <= n,
        first_current(modes, m) is Some,
    ensures
        first_current(modes, n) == first_current(modes, m),
    decreases n - m,
{
    if m < n {
        lemma_first_current_stays(modes, m, n - 1);
    }
}

} // verus!
