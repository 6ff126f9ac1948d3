use vstd::prelude::*;

verus! {

/// The name of the GLSL type of a channel with `size` components (1 to 4).
pub open spec fn glsl_type(size: int) -> Seq<char> {
    if size == 1 {
        "float"@
    } else if size == 2 {
        "vec2"@
    } else if size == 3 {
        "vec3"@
    } else {
        "vec4"@
    }
}

/// The swizzle that reads the first `size` components (1 to 4) of a texel.
pub open spec fn swizzle(size: int) -> Seq<char> {
    if size == 1 {
        "r"@
    } else if size == 2 {
        "rg"@
    } else if size == 3 {
        "rgb"@
    } else {
        "rgba"@
    }
}

/// The decimal digit `d` (below 10).
pub open spec fn digit_char(d: int) -> char {
    if d == 0 {
        '0'
    } else if d == 1 {
        '1'
    } else if d == 2 {
        '2'
    } else if d == 3 {
        '3'
    } else if d == 4 {
        '4'
    } else if d == 5 {
        '5'
    } else if d == 6 {
        '6'
    } else if d == 7 {
        '7'
    } else if d == 8 {
        '8'
    } else {
        '9'
    }
}

/// `n` written in decimal, without leading zeros.
pub open spec fn decimal(n: nat) -> Seq<char>
    decreases n,
{
    if n < 10 {
        seq![digit_char(n as int)]
    } else {
        decimal(n / 10) + seq![digit_char((n % 10) as int)]
    }
}

/// The declaration of one channel: its type, a space, its name.
pub open spec fn base_declaration(entry: (Seq<char>, usize)) -> Seq<char> {
    glsl_type(entry.1 as int) + " "@ + entry.0
}

/// The declarations of the channels, in order.
pub open spec fn base_declarations(entries: Seq<(Seq<char>, usize)>) -> Seq<Seq<char>> {
    entries.map_values(|e: (Seq<char>, usize)| base_declaration(e))
}

/// The output line for declaration `decl` bound to output unit `unit`.
pub open spec fn output_line(unit: int, decl: Seq<char>) -> Seq<char> {
    "layout(location = "@ + decimal(unit as nat) + ") out "@ + decl + ";\n"@
}

/// The output lines for `decls`, the first bound to unit `first`, the next ones to
/// the units after it.
pub open spec fn output_lines(decls: Seq<Seq<char>>, first: int) -> Seq<char>
    decreases decls.len(),
{
    if decls.len() == 0 {
        Seq::empty()
    } else {
        output_lines(decls.drop_last(), first) + output_line(first + decls.len() - 1, decls.last())
    }
}

/// The lines of `glsl_output_declarations`, one per channel in order, bind the
/// channels to consecutive output units: line `i` binds declaration `i` to unit
/// `first + i`, so each unit from `first` on is used once.
pub proof fn lemma_output_units(decls: Seq<Seq<char>>, first: int)
    ensures
        output_lines(decls, first) == Seq::new(decls.len(), |i: int| output_line(first + i, decls[i])).flatten(),
    decreases decls.len(),
{
    let lines = Seq::new(decls.len(), |i: int| output_line(first + i, decls[i]));
    lines.lemma_flatten_and_flatten_alt_are_equivalent();
    if decls.len() > 0 {
        let rest = decls.drop_last();
        lemma_output_units(rest, first);
        let rest_lines = Seq::new(rest.len(), |i: int| output_line(first + i, rest[i]));
        rest_lines.lemma_flatten_and_flatten_alt_are_equivalent();
        assert(lines.drop_last() =~= rest_lines);
        assert(lines.last() == output_line(first + decls.len() - 1, decls.last()));
    }
}

/// The sampler declarations for the channels, one line each.
pub open spec fn texture_lines(entries: Seq<(Seq<char>, usize)>) -> Seq<char>
    decreases entries.len(),
{
    if entries.len() == 0 {
        Seq::empty()
    } else {
        texture_lines(entries.drop_last()) + "uniform sampler2D _channel_texture_"@ + entries.last().0
            + ";\n"@
    }
}

/// The assignment of one channel from its texture at `tex_coords`.
pub open spec fn assignment(entry: (Seq<char>, usize), tex_coords: Seq<char>) -> Seq<char> {
    entry.0 + " = texture(_channel_texture_"@ + entry.0 + ", "@ + tex_coords + ")."@ + swizzle(
        entry.1 as int,
    ) + ";\n"@
}

/// The assignments of the channels, one line each.
pub open spec fn assignment_lines(entries: Seq<(Seq<char>, usize)>, tex_coords: Seq<char>) -> Seq<char>
    decreases entries.len(),
{
    if entries.len() == 0 {
        Seq::empty()
    } else {
        assignment_lines(entries.drop_last(), tex_coords) + assignment(entries.last(), tex_coords)
    }
}

/// No name occurs twice.
pub open spec fn distinct_names(entries: Seq<(Seq<char>, usize)>) -> bool {
    forall|i: int, j: int| 0 <= i < j < entries.len() ==> entries[i].0 != entries[j].0
}

/// Every channel has 1 to 4 components.
pub open spec fn sizes_ok(entries: Seq<(Seq<char>, usize)>) -> bool {
    forall|i: int| 0 <= i < entries.len() ==> 1 <= #[trigger] entries[i].1 <= 4
}

/// The view of a list of named channels.
pub open spec fn entries_of(v: Seq<(String, usize)>) -> Seq<(Seq<char>, usize)> {
    v.map_values(|p: (String, usize)| (p.0@, p.1))
}

/// Appending a channel appends its view.
proof fn lemma_entries_of_push(v: Seq<(String, usize)>, x: (String, usize))
    ensures
        entries_of(v.push(x)) == entries_of(v).push((x.0@, x.1)),
{
    assert(entries_of(v.push(x)) =~= entries_of(v).push((x.0@, x.1)));
}

fn digit_str(d: usize) -> (result: &'static str)
    requires
        d < 10,
    ensures
        result@ == seq![digit_char(d as int)],
{
    if d == 0 {
        proof {
            reveal_strlit("0");
        }
        "0"
    } else if d == 1 {
        proof {
            reveal_strlit("1");
        }
        "1"
    } else if d == 2 {
        proof {
            reveal_strlit("2");
        }
        "2"
    } else if d == 3 {
        proof {
            reveal_strlit("3");
        }
        "3"
    } else if d == 4 {
        proof {
            reveal_strlit("4");
        }
        "4"
    } else if d == 5 {
        proof {
            reveal_strlit("5");
        }
        "5"
    } else if d == 6 {
        proof {
            reveal_strlit("6");
        }
        "6"
    } else if d == 7 {
        proof {
            reveal_strlit("7");
        }
        "7"
    } else if d == 8 {
        proof {
            reveal_strlit("8");
        }
        "8"
    } else {
        proof {
            reveal_strlit("9");
        }
        "9"
    }
}

/// `n` in decimal.
pub fn decimal_string(n: usize) -> (result: String)
    ensures
        result@ == decimal(n as nat),
    decreases n,
{
    if n < 10 {
        String::from_str(digit_str(n))
    } else {
        let mut s = decimal_string(n / 10);
        s.append(digit_str(n % 10));
        s
    }
}

/// Named texture channels that a shader reads and writes, each with its number of
/// components.
pub struct Channels {
    channels: Vec<(String, usize)>,
}

impl Channels {
    #[verifier::type_invariant]
    spec fn inv(self) -> bool {
        distinct_names(entries_of(self.channels@))
    }

    /// The channels, as (name, number of components), in the order they are
    /// written out.
    pub closed spec fn entries(&self) -> Seq<(Seq<char>, usize)> {
        entries_of(self.channels@)
    }

    /// No channels.
    pub fn new() -> (result: Self)
        ensures
            result.entries() == Seq::<(Seq<char>, usize)>::empty(),
    {
        let result = Channels { channels: Vec::new() };
        assert(result.entries() =~= Seq::<(Seq<char>, usize)>::empty());
        result
    }

    /// The channels of a list in which no name occurs twice.
    pub fn from(channels: &Vec<(String, usize)>) -> (result: Self)
        requires
            distinct_names(entries_of(channels@)),
        ensures
            result.entries() == entries_of(channels@),
    {
        let mut v: Vec<(String, usize)> = Vec::new();
        let n = channels.len();
        for i in 0..n
            invariant
                n == channels@.len(),
                entries_of(v@) == entries_of(channels@).take(i as int),
        {
            let name = channels[i].0.clone();
            let ghost before = v@;
            v.push((name, channels[i].1));
            proof {
                lemma_entries_of_push(before, (name, channels@[i as int].1));
                assert(entries_of(channels@).take(i + 1) =~= entries_of(channels@).take(i as int).push(
                    entries_of(channels@)[i as int],
                ));
            }
            assert(entries_of(v@) =~= entries_of(channels@).take(i + 1));
        }
        assert(entries_of(channels@).take(n as int) =~= entries_of(channels@));
        Channels { channels: v }
    }

    /// The channels, as (name, number of components).
    pub fn iter(&self) -> (result: &Vec<(String, usize)>)
        ensures
            entries_of(result@) == self.entries(),
    {
        &self.channels
    }

    fn to_glsl_type(size: usize) -> (result: String)
        requires
            1 <= size <= 4,
        ensures
            result@ == glsl_type(size as int),
    {
        if size == 1 {
            String::from_str("float")
        } else if size == 2 {
            String::from_str("vec2")
        } else if size == 3 {
            String::from_str("vec3")
        } else {
            String::from_str("vec4")
        }
    }

    fn swizzle_mask(size: usize) -> (result: String)
        requires
            1 <= size <= 4,
        ensures
            result@ == swizzle(size as int),
    {
        if size == 1 {
            String::from_str("r")
        } else if size == 2 {
            String::from_str("rg")
        } else if size == 3 {
            String::from_str("rgb")
        } else {
            String::from_str("rgba")
        }
    }

    /// One declaration per channel: its GLSL type and its name.
    pub fn glsl_base_declarations(&self) -> (result: Vec<String>)
        requires
            sizes_ok(self.entries()),
        ensures
            result@.len() == self.entries().len(),
            forall|i: int|
                0 <= i < result@.len() ==> #[trigger] result@[i]@ == base_declarations(self.entries())[i],
    {
        let mut out: Vec<String> = Vec::new();
        let n = self.channels.len();
        for i in 0..n
            invariant
                n == self.channels@.len(),
                sizes_ok(self.entries()),
                self.entries() == entries_of(self.channels@),
                out@.len() == i,
                forall|k: int| 0 <= k < i ==> #[trigger] out@[k]@ == base_declarations(self.entries())[k],
        {
            assert(self.entries()[i as int].1 == self.channels@[i as int].1);
            assert(1 <= self.entries()[i as int].1 <= 4);
            let mut s = Self::to_glsl_type(self.channels[i].1);
            s.append(" ");
            s.append(self.channels[i].0.as_str());
            out.push(s);
        }
        out
    }

    /// The output declarations of the channels, the first bound to output unit
    /// `first_output_unit` and the next ones to the units after it.
    pub fn glsl_output_declarations(&self, first_output_unit: usize) -> (result: String)
        requires
            sizes_ok(self.entries()),
            first_output_unit + self.entries().len() <= usize::MAX + 1,
        ensures
            result@ == output_lines(base_declarations(self.entries()), first_output_unit as int),
    {
        let decls = self.glsl_base_declarations();
        let ghost want = base_declarations(self.entries());
        let mut s = String::new();
        let n = decls.len();
        proof {
            assert(want.take(0) =~= Seq::<Seq<char>>::empty());
        }
        for i in 0..n
            invariant
                n == decls@.len(),
                n == want.len(),
                first_output_unit + n <= usize::MAX + 1,
                forall|k: int| 0 <= k < n ==> #[trigger] decls@[k]@ == want[k],
                s@ == output_lines(want.take(i as int), first_output_unit as int),
        {
            let unit = decimal_string(i + first_output_unit);
            s.append("layout(location = ");
            s.append(unit.as_str());
            s.append(") out ");
            s.append(decls[i].as_str());
            s.append(";\n");
            proof {
                assert(want.take(i + 1).drop_last() =~= want.take(i as int));
                assert(want.take(i + 1).last() == want[i as int]);
                assert(s@ =~= output_lines(want.take(i + 1), first_output_unit as int));
            }
        }
        proof {
            assert(want.take(n as int) =~= want);
        }
        s
    }

    /// A sampler declaration for each channel's texture.
    pub fn glsl_texture_declarations(&self) -> (result: String)
        ensures
            result@ == texture_lines(self.entries()),
    {
        let ghost es = self.entries();
        let mut s = String::new();
        let n = self.channels.len();
        proof {
            assert(es.take(0) =~= Seq::<(Seq<char>, usize)>::empty());
        }
        for i in 0..n
            invariant
                n == self.channels@.len(),
                es == entries_of(self.channels@),
                s@ == texture_lines(es.take(i as int)),
        {
            s.append("uniform sampler2D _channel_texture_");
            s.append(self.channels[i].0.as_str());
            s.append(";\n");
            proof {
                assert(es.take(i + 1).drop_last() =~= es.take(i as int));
                assert(es.take(i + 1).last() == es[i as int]);
                assert(s@ =~= texture_lines(es.take(i + 1)));
            }
        }
        proof {
            assert(es.take(n as int) =~= es);
        }
        s
    }

    /// An assignment of each channel from its texture at `tex_coords_name`.
    pub fn glsl_assignments(&self, tex_coords_name: &str) -> (result: String)
        requires
            sizes_ok(self.entries()),
        ensures
            result@ == assignment_lines(self.entries(), tex_coords_name@),
    {
        let ghost es = self.entries();
        let mut s = String::new();
        let n = self.channels.len();
        proof {
            assert(es.take(0) =~= Seq::<(Seq<char>, usize)>::empty());
        }
        for i in 0..n
            invariant
                n == self.channels@.len(),
                es == entries_of(self.channels@),
                sizes_ok(es),
                s@ == assignment_lines(es.take(i as int), tex_coords_name@),
        {
            assert(es[i as int].1 == self.channels@[i as int].1);
            assert(1 <= es[i as int].1 <= 4);
            let swizzler = Self::swizzle_mask(self.channels[i].1);
            let name = self.channels[i].0.as_str();
            s.append(name);
            s.append(" = texture(_channel_texture_");
            s.append(name);
            s.append(", ");
            s.append(tex_coords_name);
            s.append(").");
            s.append(swizzler.as_str());
            s.append(";\n");
            proof {
                assert(es.take(i + 1).drop_last() =~= es.take(i as int));
                assert(es.take(i + 1).last() == es[i as int]);
                assert(s@ =~= assignment_lines(es.take(i + 1), tex_coords_name@));
            }
        }
        proof {
            assert(es.take(n as int) =~= es);
        }
        s
    }
}

impl Clone for Channels {
    fn clone(&self) -> (result: Self)
        ensures
            result.entries() == self.entries(),
    {
        proof {
            use_type_invariant(self);
        }
        Channels::from(&self.channels)
    }
}

} // verus!
