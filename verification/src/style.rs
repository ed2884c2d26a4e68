//! Style resolver: the active rule store and the per-element resolution of
//! concrete property sets.
//!
//! The store holds the parsed rules of the active document in authored order.
//! Re-declared selectors simply add further rules; resolution reads the last
//! declaration of a property among every applicable rule, so duplicate
//! selectors merge property by property, later values winning.
//!
//! Resolution order for an element: start from the documented defaults (a few
//! of them tag-specific, see the `spec_default_*` functions); apply the rules
//! keyed by the tag's own name; then, in the element's authored class order,
//! the rules keyed by `.class`.  Later declarations overwrite earlier ones
//! key by key.  Numeric properties drop a trailing `px` or `pt` suffix and
//! are read as integers, falling back to the default when that fails.
//! Opacity is kept in thousandths (0 ..= 1000).

use vstd::prelude::*;

use crate::parser::{parse, Rule, RuleModel};
use crate::text::{
    ends_with, parse_i32, spec_all_digits, spec_digits_value, spec_ends_with, spec_is_digit,
    spec_parse_i32, spec_split, split_char, str_eq,
};

verus! {

/// The rule store of the active document: reset at the start of every render
/// pass, then filled from the parsed sheets.
pub struct RuleStore {
    rules: Vec<Rule>,
}

impl View for RuleStore {
    type V = Seq<RuleModel>;

    closed spec fn view(&self) -> Seq<RuleModel> {
        self.rules.deep_view()
    }
}

/// The declarations of every rule keyed by `sel`, in authored order.
pub open spec fn spec_rule_decls(rules: Seq<RuleModel>, sel: Seq<char>) -> Seq<
    (Seq<char>, Seq<char>),
>
    decreases rules.len(),
{
    if rules.len() == 0 {
        Seq::empty()
    } else {
        spec_rule_decls(rules.take(rules.len() - 1), sel) + (if rules.last().selector == sel {
            rules.last().properties
        } else {
            Seq::empty()
        })
    }
}

/// The declarations contributed by the element's classes, in authored class
/// order: for class `c` the rules keyed by `.c`.
pub open spec fn spec_class_decls(rules: Seq<RuleModel>, classes: Seq<Seq<char>>) -> Seq<
    (Seq<char>, Seq<char>),
>
    decreases classes.len(),
{
    if classes.len() == 0 {
        Seq::empty()
    } else {
        spec_class_decls(rules, classes.take(classes.len() - 1)) + spec_rule_decls(
            rules,
            "."@ + classes.last(),
        )
    }
}

/// Every declaration applicable to an element, in application order: the
/// tag's own rules first, then each class's rules in authored class order.
pub open spec fn spec_cascade(
    rules: Seq<RuleModel>,
    tag: Seq<char>,
    classes: Seq<Seq<char>>,
) -> Seq<(Seq<char>, Seq<char>)> {
    spec_rule_decls(rules, tag) + spec_class_decls(rules, classes)
}

/// The last declaration of `prop`, if any: the one that wins the cascade.
pub open spec fn spec_lookup_last(
    decls: Seq<(Seq<char>, Seq<char>)>,
    prop: Seq<char>,
) -> Option<Seq<char>>
    decreases decls.len(),
{
    if decls.len() == 0 {
        None
    } else if decls.last().0 == prop {
        Some(decls.last().1)
    } else {
        spec_lookup_last(decls.take(decls.len() - 1), prop)
    }
}

/// The raw resolved value of `prop` for an element: the last applicable
/// declaration, or nothing.
pub open spec fn spec_effective(
    rules: Seq<RuleModel>,
    tag: Seq<char>,
    classes: Seq<Seq<char>>,
    prop: Seq<char>,
) -> Option<Seq<char>> {
    spec_lookup_last(spec_cascade(rules, tag, classes), prop)
}

/// Cascade law: what `spec_lookup_last` returns is exactly the last
/// declaration of the property in the applicable declarations, and nothing
/// when no applicable rule declares it.
pub proof fn lemma_lookup_last_is_last(decls: Seq<(Seq<char>, Seq<char>)>, prop: Seq<char>)
    ensures
        match spec_lookup_last(decls, prop) {
            None => forall|i: int| 0 <= i < decls.len() ==> decls[i].0 != prop,
            Some(v) => exists|i: int|
                0 <= i < decls.len() && decls[i] == (prop, v) && (forall|j: int|
                    i < j < decls.len() ==> decls[j].0 != prop),
        },
    decreases decls.len(),
{
    if decls.len() > 0 {
        let t = decls.take(decls.len() - 1);
        if decls.last().0 == prop {
            let i = decls.len() - 1;
            assert(decls[i] == (prop, decls.last().1));
        } else {
            lemma_lookup_last_is_last(t, prop);
            match spec_lookup_last(t, prop) {
                None => {
                    assert(forall|i: int| 0 <= i < t.len() ==> t[i] == decls[i]);
                },
                Some(v) => {
                    let i = choose|i: int|
                        0 <= i < t.len() && t[i] == (prop, v) && (forall|j: int|
                            i < j < t.len() ==> t[j].0 != prop);
                    assert(decls[i] == (prop, v));
                    assert(forall|j: int| i < j < decls.len() - 1 ==> decls[j] == t[j]);
                    assert(forall|j: int| i < j < decls.len() - 1 ==> decls[j].0 != prop);
                },
            }
        }
    }
}

/// Cascade law at the element level, in the resolver's own terms: the raw
/// resolved value of a property is the last declaration of that property
/// among the rules for the tag's name and then for each class in authored
/// order; absent any such declaration there is none, and the resolver falls
/// back to the documented default.
pub proof fn lemma_cascade_law(
    rules: Seq<RuleModel>,
    tag: Seq<char>,
    classes: Seq<Seq<char>>,
    prop: Seq<char>,
)
    ensures
        match spec_effective(rules, tag, classes, prop) {
            None => forall|i: int|
                0 <= i < spec_cascade(rules, tag, classes).len() ==> spec_cascade(
                    rules,
                    tag,
                    classes,
                )[i].0 != prop,
            Some(v) => exists|i: int|
                #![trigger spec_cascade(rules, tag, classes)[i]]
                {
                    let decls = spec_cascade(rules, tag, classes);
                    0 <= i < decls.len() && decls[i] == (prop, v) && (forall|j: int|
                        i < j < decls.len() ==> decls[j].0 != prop)
                },
        },
{
    lemma_lookup_last_is_last(spec_cascade(rules, tag, classes), prop);
}

/// A textual property: the winning declaration, else the default.
pub open spec fn spec_text_value(eff: Option<Seq<char>>, default: Seq<char>) -> Seq<char> {
    match eff {
        None => default,
        Some(v) => v,
    }
}

/// A trailing `px` or `pt` unit suffix dropped.
pub open spec fn spec_strip_unit(s: Seq<char>) -> Seq<char> {
    if spec_ends_with(s, "px"@) || spec_ends_with(s, "pt"@) {
        s.take(s.len() - 2)
    } else {
        s
    }
}

/// A numeric property: the winning declaration with its unit dropped, read
/// as an integer; the default on no declaration or on parse failure.
pub open spec fn spec_dim_value(eff: Option<Seq<char>>, default: int) -> int {
    match eff {
        None => default,
        Some(v) => match spec_parse_i32(spec_strip_unit(v)) {
            Some(n) => n as int,
            None => default,
        },
    }
}

/// The first three fraction digits read as thousandths.
pub open spec fn spec_frac_thousandths(s: Seq<char>) -> int {
    let d0 = if s.len() > 0 {
        s[0] as int - '0' as int
    } else {
        0
    };
    let d1 = if s.len() > 1 {
        s[1] as int - '0' as int
    } else {
        0
    };
    let d2 = if s.len() > 2 {
        s[2] as int - '0' as int
    } else {
        0
    };
    d0 * 100 + d1 * 10 + d2
}

/// An opacity literal read into thousandths: `digits`, `digits.digits` or
/// `.digits`; any whole part of one or more saturates at 1000; fraction
/// digits beyond the third are ignored.
pub open spec fn spec_parse_opacity(s: Seq<char>) -> Option<int> {
    let parts = spec_split(s, '.');
    if parts.len() == 1 {
        if spec_all_digits(parts[0]) {
            Some(
                if spec_digits_value(parts[0]) >= 1 {
                    1000
                } else {
                    0
                },
            )
        } else {
            None
        }
    } else if parts.len() == 2 {
        let whole = parts[0];
        let frac = parts[1];
        if (whole.len() == 0 || spec_all_digits(whole)) && spec_all_digits(frac) {
            if whole.len() > 0 && spec_digits_value(whole) >= 1 {
                Some(1000)
            } else {
                Some(spec_frac_thousandths(frac))
            }
        } else {
            None
        }
    } else {
        None
    }
}

/// The opacity property in thousandths: defaults to fully opaque.
pub open spec fn spec_opacity_value(eff: Option<Seq<char>>) -> int {
    match eff {
        None => 1000,
        Some(v) => match spec_parse_opacity(v) {
            Some(t) => t,
            None => 1000,
        },
    }
}

/// Tag-specific default font size: headings are larger.
pub open spec fn spec_default_font_size(tag: Seq<char>) -> int {
    if tag == "h1"@ {
        24
    } else if tag == "h2"@ {
        22
    } else if tag == "h3"@ {
        20
    } else if tag == "h4"@ {
        18
    } else if tag == "h5"@ {
        16
    } else if tag == "h6"@ {
        14
    } else {
        11
    }
}

/// Text inputs and text areas carry a bordered, padded default box.
pub open spec fn spec_is_form_tag(tag: Seq<char>) -> bool {
    tag == "input"@ || tag == "textarea"@
}

pub open spec fn spec_default_direction(tag: Seq<char>) -> Seq<char> {
    if tag == "body"@ {
        "column"@
    } else {
        "row"@
    }
}

pub open spec fn spec_default_gap(tag: Seq<char>) -> int {
    if tag == "body"@ {
        10
    } else {
        0
    }
}

pub open spec fn spec_default_color(tag: Seq<char>) -> Seq<char> {
    if tag == "a"@ {
        "#67B7D1"@
    } else {
        "#ffffff"@
    }
}

pub open spec fn spec_default_padding(tag: Seq<char>) -> int {
    if spec_is_form_tag(tag) {
        5
    } else {
        0
    }
}

pub open spec fn spec_default_border_style(tag: Seq<char>) -> Seq<char> {
    if spec_is_form_tag(tag) {
        "solid"@
    } else {
        "none"@
    }
}

pub open spec fn spec_default_border_color(tag: Seq<char>) -> Seq<char> {
    if spec_is_form_tag(tag) {
        "#616161"@
    } else {
        "black"@
    }
}

pub open spec fn spec_default_border_width(tag: Seq<char>) -> int {
    if spec_is_form_tag(tag) {
        1
    } else {
        0
    }
}

pub open spec fn spec_default_border_radius(tag: Seq<char>) -> int {
    if spec_is_form_tag(tag) {
        12
    } else {
        0
    }
}

pub open spec fn spec_default_width(tag: Seq<char>) -> int {
    if tag == "textarea"@ {
        400
    } else {
        0
    }
}

pub open spec fn spec_default_height(tag: Seq<char>) -> int {
    if tag == "textarea"@ {
        100
    } else {
        0
    }
}

/// Resolved concrete values for one element.  Defaults, applied when no
/// matching rule declares the property, are given beside each field.
#[derive(Debug, PartialEq)]
pub struct PropertySet {
    /// Layout direction of a container: `row`, or `column` for the body.
    pub direction: String,
    /// Alignment of a container's children: `fill`.
    pub align_items: String,
    /// Text wrapping: `nowrap`.
    pub wrap: String,
    /// Gap between a container's children: 0, or 10 for the body.
    pub gap: i32,
    /// Requested width: 0 (natural size); 400 for text areas.
    pub width: i32,
    /// Requested height: 0 (natural size); 100 for text areas.
    pub height: i32,
    /// Margins: 0 each.
    pub margin_top: i32,
    pub margin_bottom: i32,
    pub margin_left: i32,
    pub margin_right: i32,
    /// Border style: `none`; `solid` for text inputs and text areas.
    pub border_style: String,
    /// Border colour: `black`; `#616161` for text inputs and text areas.
    pub border_color: String,
    /// Border width: 0; 1 for text inputs and text areas.
    pub border_width: i32,
    /// Border radius: 0; 12 for text inputs and text areas.
    pub border_radius: i32,
    /// Padding: 0; 5 for text inputs and text areas.
    pub padding: i32,
    /// Text colour: `#ffffff`; `#67B7D1` for anchors.
    pub color: String,
    /// Background colour: `transparent`.
    pub background_color: String,
    /// Font family: `Noto Sans`.
    pub font_family: String,
    /// Font weight: `normal`.
    pub font_weight: String,
    /// Font size in points: 11; headings 24 down to 14.
    pub font_size: i32,
    /// Line height: `1`.
    pub line_height: String,
    /// Underline style and colour: `none`, `black`.
    pub underline: String,
    pub underline_color: String,
    /// Overline style and colour: `none`, `black`.
    pub overline: String,
    pub overline_color: String,
    /// Strikethrough flag and colour: `false`, `black`.
    pub strikethrough: String,
    pub strikethrough_color: String,
    /// Opacity in thousandths: 1000 (fully opaque).
    pub opacity: u32,
}

/// Mathematical model of a [`PropertySet`].
#[verifier::ext_equal]
pub struct PropertySetModel {
    pub direction: Seq<char>,
    pub align_items: Seq<char>,
    pub wrap: Seq<char>,
    pub gap: int,
    pub width: int,
    pub height: int,
    pub margin_top: int,
    pub margin_bottom: int,
    pub margin_left: int,
    pub margin_right: int,
    pub border_style: Seq<char>,
    pub border_color: Seq<char>,
    pub border_width: int,
    pub border_radius: int,
    pub padding: int,
    pub color: Seq<char>,
    pub background_color: Seq<char>,
    pub font_family: Seq<char>,
    pub font_weight: Seq<char>,
    pub font_size: int,
    pub line_height: Seq<char>,
    pub underline: Seq<char>,
    pub underline_color: Seq<char>,
    pub overline: Seq<char>,
    pub overline_color: Seq<char>,
    pub strikethrough: Seq<char>,
    pub strikethrough_color: Seq<char>,
    pub opacity: int,
}

impl View for PropertySet {
    type V = PropertySetModel;

    open spec fn view(&self) -> PropertySetModel {
        PropertySetModel {
            direction: self.direction@,
            align_items: self.align_items@,
            wrap: self.wrap@,
            gap: self.gap as int,
            width: self.width as int,
            height: self.height as int,
            margin_top: self.margin_top as int,
            margin_bottom: self.margin_bottom as int,
            margin_left: self.margin_left as int,
            margin_right: self.margin_right as int,
            border_style: self.border_style@,
            border_color: self.border_color@,
            border_width: self.border_width as int,
            border_radius: self.border_radius as int,
            padding: self.padding as int,
            color: self.color@,
            background_color: self.background_color@,
            font_family: self.font_family@,
            font_weight: self.font_weight@,
            font_size: self.font_size as int,
            line_height: self.line_height@,
            underline: self.underline@,
            underline_color: self.underline_color@,
            overline: self.overline@,
            overline_color: self.overline_color@,
            strikethrough: self.strikethrough@,
            strikethrough_color: self.strikethrough_color@,
            opacity: self.opacity as int,
        }
    }
}

/// The property set the resolver owes an element with this tag and these
/// classes under these rules.
pub open spec fn spec_resolve(
    rules: Seq<RuleModel>,
    tag: Seq<char>,
    classes: Seq<Seq<char>>,
) -> PropertySetModel {
    let eff = |prop: Seq<char>| spec_effective(rules, tag, classes, prop);
    PropertySetModel {
        direction: spec_text_value(eff("direction"@), spec_default_direction(tag)),
        align_items: spec_text_value(eff("align-items"@), "fill"@),
        wrap: spec_text_value(eff("wrap"@), "nowrap"@),
        gap: spec_dim_value(eff("gap"@), spec_default_gap(tag)),
        width: spec_dim_value(eff("width"@), spec_default_width(tag)),
        height: spec_dim_value(eff("height"@), spec_default_height(tag)),
        margin_top: spec_dim_value(eff("margin-top"@), 0),
        margin_bottom: spec_dim_value(eff("margin-bottom"@), 0),
        margin_left: spec_dim_value(eff("margin-left"@), 0),
        margin_right: spec_dim_value(eff("margin-right"@), 0),
        border_style: spec_text_value(eff("border-style"@), spec_default_border_style(tag)),
        border_color: spec_text_value(eff("border-color"@), spec_default_border_color(tag)),
        border_width: spec_dim_value(eff("border-width"@), spec_default_border_width(tag)),
        border_radius: spec_dim_value(eff("border-radius"@), spec_default_border_radius(tag)),
        padding: spec_dim_value(eff("padding"@), spec_default_padding(tag)),
        color: spec_text_value(eff("color"@), spec_default_color(tag)),
        background_color: spec_text_value(eff("background-color"@), "transparent"@),
        font_family: spec_text_value(eff("font-family"@), "Noto Sans"@),
        font_weight: spec_text_value(eff("font-weight"@), "normal"@),
        font_size: spec_dim_value(eff("font-size"@), spec_default_font_size(tag)),
        line_height: spec_text_value(eff("line-height"@), "1"@),
        underline: spec_text_value(eff("underline"@), "none"@),
        underline_color: spec_text_value(eff("underline-color"@), "black"@),
        overline: spec_text_value(eff("overline"@), "none"@),
        overline_color: spec_text_value(eff("overline-color"@), "black"@),
        strikethrough: spec_text_value(eff("strikethrough"@), "false"@),
        strikethrough_color: spec_text_value(eff("strikethrough-color"@), "black"@),
        opacity: spec_opacity_value(eff("opacity"@)),
    }
}

impl RuleStore {
    /// An empty store: the state at the start of a render pass.
    pub fn new() -> (r: RuleStore)
        ensures
            r@ =~= Seq::<RuleModel>::empty(),
    {
        let r = RuleStore { rules: Vec::new() };
        proof {
            assert(r@ =~= Seq::<RuleModel>::empty());
        }
        r
    }

    /// Drops every rule: no rule of the previous document survives a
    /// navigation.
    pub fn reset(&mut self)
        ensures
            final(self)@ =~= Seq::<RuleModel>::empty(),
    {
        self.rules = Vec::new();
        proof {
            assert(self@ =~= Seq::<RuleModel>::empty());
        }
    }

    /// Parses one sheet and appends its rules.  A malformed sheet is
    /// rejected whole: the store keeps its previous rules and the caller is
    /// told, so that it can log and carry on.
    pub fn add_sheet(&mut self, input: &str) -> (ok: bool)
        ensures
            ok ==> {
                &&& crate::parser::spec_parse(input@) is Some
                &&& final(self)@ == old(self)@ + crate::parser::spec_parse(input@)->0
            },
            !ok ==> {
                &&& crate::parser::spec_parse(input@) is None
                &&& final(self)@ == old(self)@
            },
    {
        match parse(input) {
            Ok(mut rules) => {
                let ghost before = self@;
                let ghost added = rules.deep_view();
                let mut k: usize = 0;
                let rlen = rules.len();
                proof {
                    assert(added.len() == rlen as int);
                    assert(added.take(0) =~= Seq::<RuleModel>::empty());
                    assert(self@ =~= before + added.take(0));
                }
                while k < rlen
                    invariant
                        k <= rlen,
                        rlen as int == added.len(),
                        rules.len() + k == rlen,
                        rules.deep_view() =~= added.skip(k as int),
                        self@ =~= before + added.take(k as int),
                    decreases rlen - k,
                {
                    let rule = rules.remove(0);
                    proof {
                        assert(rule@ == added.skip(k as int)[0]);
                        assert(added.skip(k as int)[0] == added[k as int]);
                        assert(rules.deep_view() =~= added.skip(k as int).skip(1));
                        assert(added.skip(k as int).skip(1) =~= added.skip(k as int + 1));
                    }
                    let ghost store_before = self@;
                    self.rules.push(rule);
                    proof {
                        let target = before + added.take(k as int + 1);
                        assert(self@.len() == store_before.len() + 1);
                        assert(store_before.len() == before.len() + k as int);
                        assert(target.len() == before.len() + k + 1);
                        assert forall|t: int| 0 <= t < self@.len() implies self@[t]
                            == target[t] by {
                            if t < store_before.len() {
                                assert(self@[t] == store_before[t]);
                                if t >= before.len() {
                                    assert(store_before[t] == added.take(k as int)[t
                                        - before.len()]);
                                    assert(target[t] == added.take(k as int + 1)[t
                                        - before.len()]);
                                }
                            } else {
                                assert(self@[t] == rule@);
                                assert(target[t] == added[k as int]);
                            }
                        }
                        assert(self@ =~= target);
                    }
                    k = k + 1;
                }
                proof {
                    assert(added.take(rlen as int) =~= added);
                    assert(self@ =~= before + added);
                }
                true
            },
            Err(_) => false,
        }
    }

    /// The declarations of every rule keyed by `sel`, in authored order.
    fn decls_for(&self, sel: &str) -> (r: Vec<(String, String)>)
        ensures
            r.deep_view() == spec_rule_decls(self@, sel@),
    {
        let mut r: Vec<(String, String)> = Vec::new();
        proof {
            assert(self@.take(0) =~= Seq::<RuleModel>::empty());
            assert(r.deep_view() =~= spec_rule_decls(self@.take(0), sel@));
        }
        let mut i: usize = 0;
        while i < self.rules.len()
            invariant
                i <= self.rules.len(),
                self@.len() == self.rules.len(),
                r.deep_view() =~= spec_rule_decls(self@.take(i as int), sel@),
            decreases self.rules.len() - i,
        {
            proof {
                assert(self@.take(i as int + 1).take(i as int) =~= self@.take(i as int));
                assert(self@.take(i as int + 1).last() == self@[i as int]);
                assert(self@[i as int] == self.rules[i as int]@);
            }
            if str_eq(self.rules[i].selector.as_str(), sel) {
                append_decls(&mut r, &self.rules[i].properties);
            }
            proof {
                assert(r.deep_view() =~= spec_rule_decls(self@.take(i as int + 1), sel@));
            }
            i = i + 1;
        }
        proof {
            assert(self@.take(self.rules.len() as int) =~= self@);
        }
        r
    }

    /// Every declaration applicable to an element: tag rules first, then the
    /// rules of each class in authored order.
    pub fn cascade(&self, tag: &str, classes: &Vec<String>) -> (r: Vec<(String, String)>)
        ensures
            r.deep_view() == spec_cascade(self@, tag@, classes.deep_view()),
    {
        let mut r = self.decls_for(tag);
        let ghost cls = classes.deep_view();
        proof {
            assert(cls.take(0) =~= Seq::<Seq<char>>::empty());
            assert(r.deep_view() =~= spec_rule_decls(self@, tag@) + spec_class_decls(
                self@,
                cls.take(0),
            ));
        }
        let mut k: usize = 0;
        while k < classes.len()
            invariant
                k <= classes.len(),
                cls == classes.deep_view(),
                cls.len() == classes.len(),
                r.deep_view() =~= spec_rule_decls(self@, tag@) + spec_class_decls(
                    self@,
                    cls.take(k as int),
                ),
            decreases classes.len() - k,
        {
            let mut sel = String::from_str(".");
            sel.append(classes[k].as_str());
            proof {
                assert(cls.take(k as int + 1).take(k as int) =~= cls.take(k as int));
                assert(cls.take(k as int + 1).last() == cls[k as int]);
                assert(cls[k as int] == classes@[k as int]@);
                assert(sel@ == "."@ + cls[k as int]);
            }
            let more = self.decls_for(sel.as_str());
            append_decls(&mut r, &more);
            proof {
                assert(r.deep_view() =~= spec_rule_decls(self@, tag@) + spec_class_decls(
                    self@,
                    cls.take(k as int + 1),
                ));
            }
            k = k + 1;
        }
        proof {
            assert(cls.take(classes.len() as int) =~= cls);
        }
        r
    }

    /// Resolves the concrete property set for one element: documented
    /// defaults, overwritten key by key by the applicable declarations in
    /// cascade order.
    pub fn resolve(&self, tag: &str, classes: &Vec<String>) -> (r: PropertySet)
        ensures
            r@ == spec_resolve(self@, tag@, classes.deep_view()),
    {
        let decls = self.cascade(tag, classes);
        let is_body = str_eq(tag, "body");
        let is_anchor = str_eq(tag, "a");
        let is_area = str_eq(tag, "textarea");
        let is_form = str_eq(tag, "input") || is_area;
        let font_default: i32 = if str_eq(tag, "h1") {
            24
        } else if str_eq(tag, "h2") {
            22
        } else if str_eq(tag, "h3") {
            20
        } else if str_eq(tag, "h4") {
            18
        } else if str_eq(tag, "h5") {
            16
        } else if str_eq(tag, "h6") {
            14
        } else {
            11
        };
        let r = PropertySet {
            direction: text_prop(&decls, "direction", if is_body {
                "column"
            } else {
                "row"
            }),
            align_items: text_prop(&decls, "align-items", "fill"),
            wrap: text_prop(&decls, "wrap", "nowrap"),
            gap: dim_prop(&decls, "gap", if is_body {
                10
            } else {
                0
            }),
            width: dim_prop(&decls, "width", if is_area {
                400
            } else {
                0
            }),
            height: dim_prop(&decls, "height", if is_area {
                100
            } else {
                0
            }),
            margin_top: dim_prop(&decls, "margin-top", 0),
            margin_bottom: dim_prop(&decls, "margin-bottom", 0),
            margin_left: dim_prop(&decls, "margin-left", 0),
            margin_right: dim_prop(&decls, "margin-right", 0),
            border_style: text_prop(&decls, "border-style", if is_form {
                "solid"
            } else {
                "none"
            }),
            border_color: text_prop(&decls, "border-color", if is_form {
                "#616161"
            } else {
                "black"
            }),
            border_width: dim_prop(&decls, "border-width", if is_form {
                1
            } else {
                0
            }),
            border_radius: dim_prop(&decls, "border-radius", if is_form {
                12
            } else {
                0
            }),
            padding: dim_prop(&decls, "padding", if is_form {
                5
            } else {
                0
            }),
            color: text_prop(&decls, "color", if is_anchor {
                "#67B7D1"
            } else {
                "#ffffff"
            }),
            background_color: text_prop(&decls, "background-color", "transparent"),
            font_family: text_prop(&decls, "font-family", "Noto Sans"),
            font_weight: text_prop(&decls, "font-weight", "normal"),
            font_size: dim_prop(&decls, "font-size", font_default),
            line_height: text_prop(&decls, "line-height", "1"),
            underline: text_prop(&decls, "underline", "none"),
            underline_color: text_prop(&decls, "underline-color", "black"),
            overline: text_prop(&decls, "overline", "none"),
            overline_color: text_prop(&decls, "overline-color", "black"),
            strikethrough: text_prop(&decls, "strikethrough", "false"),
            strikethrough_color: text_prop(&decls, "strikethrough-color", "black"),
            opacity: opacity_prop(&decls),
        };
        proof {
            assert(r@ =~= spec_resolve(self@, tag@, classes.deep_view()));
        }
        r
    }
}

/// Appends a copy of every declaration of `src`.
fn append_decls(dst: &mut Vec<(String, String)>, src: &Vec<(String, String)>)
    ensures
        final(dst).deep_view() == old(dst).deep_view() + src.deep_view(),
{
    let ghost base = dst.deep_view();
    let mut j: usize = 0;
    proof {
        assert(src.deep_view().take(0) =~= Seq::<(Seq<char>, Seq<char>)>::empty());
        assert(dst.deep_view() =~= base + src.deep_view().take(0));
    }
    while j < src.len()
        invariant
            j <= src.len(),
            src.deep_view().len() == src.len(),
            dst.deep_view() =~= base + src.deep_view().take(j as int),
        decreases src.len() - j,
    {
        let x = (src[j].0.clone(), src[j].1.clone());
        proof {
            assert(x.deep_view() == src.deep_view()[j as int]);
            assert(dst.deep_view().len() == base.len() + j as int);
            assert(dst@.len() == dst.deep_view().len());
        }
        let ghost before = dst.deep_view();
        dst.push(x);
        proof {
            let target = base + src.deep_view().take(j as int + 1);
            assert(dst.deep_view().len() == before.len() + 1);
            assert(target.len() == before.len() + 1);
            assert forall|t: int| 0 <= t < dst.deep_view().len() implies dst.deep_view()[t]
                == target[t] by {
                if t < before.len() {
                    assert(dst.deep_view()[t] == before[t]);
                    if t >= base.len() {
                        assert(before[t] == src.deep_view().take(j as int)[t - base.len()]);
                        assert(target[t] == src.deep_view().take(j as int + 1)[t - base.len()]);
                    }
                } else {
                    assert(dst.deep_view()[t] == x.deep_view());
                    assert(target[t] == src.deep_view()[j as int]);
                }
            }
            assert(dst.deep_view() =~= target);
        }
        j = j + 1;
    }
    proof {
        assert(src.deep_view().take(src.len() as int) =~= src.deep_view());
    }
}

/// The winning declaration of `prop`, if any.
fn lookup_last<'a>(decls: &'a Vec<(String, String)>, prop: &str) -> (r: Option<&'a String>)
    ensures
        match r {
            Some(v) => spec_lookup_last(decls.deep_view(), prop@) == Some(v@),
            None => spec_lookup_last(decls.deep_view(), prop@) is None,
        },
{
    let ghost dv = decls.deep_view();
    let mut i: usize = decls.len();
    proof {
        assert(dv.take(decls.len() as int) =~= dv);
    }
    while i > 0
        invariant
            i <= decls.len(),
            dv == decls.deep_view(),
            dv.len() == decls.len(),
            spec_lookup_last(dv, prop@) == spec_lookup_last(dv.take(i as int), prop@),
        decreases i,
    {
        proof {
            assert(dv.take(i as int).last() == dv[i as int - 1]);
            assert(dv.take(i as int).take(i as int - 1) =~= dv.take(i as int - 1));
            assert(dv[i as int - 1] == (decls[i as int - 1].0@, decls[i as int - 1].1@));
        }
        if str_eq(decls[i - 1].0.as_str(), prop) {
            return Some(&decls[i - 1].1);
        }
        i = i - 1;
    }
    proof {
        assert(dv.take(0) =~= Seq::<(Seq<char>, Seq<char>)>::empty());
    }
    None
}

/// A textual property: the winning declaration, else the default.
fn text_prop(decls: &Vec<(String, String)>, prop: &str, default: &str) -> (r: String)
    ensures
        r@ == spec_text_value(spec_lookup_last(decls.deep_view(), prop@), default@),
{
    match lookup_last(decls, prop) {
        Some(v) => v.clone(),
        None => default.to_owned(),
    }
}

/// A numeric property: unit dropped, read as an integer, default on failure.
fn dim_prop(decls: &Vec<(String, String)>, prop: &str, default: i32) -> (r: i32)
    ensures
        r as int == spec_dim_value(spec_lookup_last(decls.deep_view(), prop@), default as int),
{
    match lookup_last(decls, prop) {
        None => default,
        Some(v) => {
            let s = v.as_str();
            let len = s.unicode_len();
            proof {
                reveal_strlit("px");
                reveal_strlit("pt");
            }
            let stripped = if ends_with(s, "px") || ends_with(s, "pt") {
                s.substring_char(0, len - 2)
            } else {
                s
            };
            proof {
                assert(stripped@ == spec_strip_unit(v@));
            }
            match parse_i32(stripped) {
                Some(n) => n,
                None => default,
            }
        },
    }
}

/// True when every character is a digit and at least one is present.
fn all_digits(s: &str) -> (r: bool)
    ensures
        r == spec_all_digits(s@),
{
    let len = s.unicode_len();
    if len == 0 {
        return false;
    }
    let mut i: usize = 0;
    while i < len
        invariant
            len == s@.len(),
            i <= len,
            forall|j: int| 0 <= j < i ==> spec_is_digit(s@[j]),
        decreases len - i,
    {
        let c = s.get_char(i);
        if !('0' <= c && c <= '9') {
            return false;
        }
        i = i + 1;
    }
    true
}

/// True when some character differs from `0`, so the digit string's value is
/// at least one.
fn any_nonzero_digit(s: &str) -> (r: bool)
    requires
        spec_all_digits(s@),
    ensures
        r == (spec_digits_value(s@) >= 1),
{
    let len = s.unicode_len();
    let mut i: usize = 0;
    while i < len
        invariant
            len == s@.len(),
            spec_all_digits(s@),
            i <= len,
            forall|j: int| 0 <= j < i ==> s@[j] == '0',
        decreases len - i,
    {
        let c = s.get_char(i);
        if c != '0' {
            proof {
                crate::text::lemma_digits_value_zero(s@);
                crate::text::lemma_digits_value_nonneg(s@);
            }
            return true;
        }
        i = i + 1;
    }
    proof {
        crate::text::lemma_digits_value_zero(s@);
    }
    false
}

/// Reads an opacity literal into thousandths; `None` on a malformed one.
fn parse_opacity(s: &str) -> (r: Option<u32>)
    ensures
        match r {
            Some(v) => spec_parse_opacity(s@) == Some(v as int),
            None => spec_parse_opacity(s@) is None,
        },
{
    let parts = split_char(s, '.');
    let ghost pv = spec_split(s@, '.');
    proof {
        assert(parts.deep_view() == pv);
        assert(parts.deep_view()[0] == parts@[0]@);
    }
    if parts.len() == 1 {
        if all_digits(parts[0].as_str()) {
            if any_nonzero_digit(parts[0].as_str()) {
                Some(1000)
            } else {
                Some(0)
            }
        } else {
            None
        }
    } else if parts.len() == 2 {
        proof {
            assert(parts.deep_view()[1] == parts@[1]@);
        }
        let whole = parts[0].as_str();
        let frac = parts[1].as_str();
        let whole_len = whole.unicode_len();
        let whole_ok = whole_len == 0 || all_digits(whole);
        let frac_ok = all_digits(frac);
        if whole_ok && frac_ok {
            if whole_len > 0 && any_nonzero_digit(whole) {
                Some(1000)
            } else {
                let flen = frac.unicode_len();
                let d0: u32 = (frac.get_char(0) as u32) - ('0' as u32);
                let d1: u32 = if flen > 1 {
                    (frac.get_char(1) as u32) - ('0' as u32)
                } else {
                    0
                };
                let d2: u32 = if flen > 2 {
                    (frac.get_char(2) as u32) - ('0' as u32)
                } else {
                    0
                };
                Some(d0 * 100 + d1 * 10 + d2)
            }
        } else {
            None
        }
    } else {
        None
    }
}

/// The opacity property in thousandths: defaults to fully opaque.
fn opacity_prop(decls: &Vec<(String, String)>) -> (r: u32)
    ensures
        r as int == spec_opacity_value(spec_lookup_last(decls.deep_view(), "opacity"@)),
{
    match lookup_last(decls, "opacity") {
        None => 1000,
        Some(v) => match parse_opacity(v.as_str()) {
            Some(t) => t,
            None => 1000,
        },
    }
}

} // verus!
