//! Form filling: validation of the requested fields and the page script
//! that fills them in order, stopping at the first failure.

use vstd::prelude::*;
use crate::text::{decimal, json_or_null, json_quote_or_null, opt_view, push_decimal, push_str};

verus! {

/// Largest number of fields one request may fill.
pub const FILL_FORM_MAX_FIELDS: usize = 64;

/// How a navigation that happens while a script runs is treated.
#[derive(Clone, Copy, Debug, PartialEq, Eq, Structural)]
pub enum NavPolicy {
    /// The script's page going away is the expected outcome.
    Success,
    /// The script's page going away is a failure.
    Error,
}

/// One field to fill: a target (a selector, or a reference from an
/// earlier snapshot) and what to put there (a value, or a checked state).
#[derive(Clone, Debug)]
pub struct FormField {
    pub selector: Option<String>,
    pub nth: Option<u32>,
    pub contains: Option<String>,
    pub element_ref: Option<u32>,
    pub value: Option<String>,
    pub checked: Option<bool>,
}

/// Why a fill request was refused before any script ran.
#[derive(Clone, Copy, Debug, PartialEq, Eq, Structural)]
pub enum FillFormError {
    /// No fields were given.
    NoFields,
    /// More fields than `FILL_FORM_MAX_FIELDS`.
    TooManyFields { count: usize },
    /// Field `index` names both or neither of a selector and a reference.
    TargetNotExclusive { index: usize },
    /// Field `index` gives both or neither of a value and a checked state.
    ContentNotExclusive { index: usize },
}

/// A fill request ready to run: the page script and how a navigation
/// during it counts.
pub struct FillFormPlan {
    pub script: String,
    pub nav: NavPolicy,
}

pub const FILL_FORM_BODY: &'static str = r#"
const findTarget = (f) => {
  if (f.ref !== null) {
    const refs = window.__hwatu_refs;
    if (!refs) throw new Error('no snapshot taken; run `hwatu snapshot` first or use selectors');
    const el = refs[f.ref];
    if (!el) throw new Error(`ref ${f.ref} out of range`);
    if (!el.isConnected) throw new Error(`ref ${f.ref} is no longer in the document`);
    return el;
  }
  const documents = [document];
  for (let i = 0; i < documents.length; i++) {
    for (const frame of documents[i].querySelectorAll('iframe,frame')) {
      try {
        const child = frame.contentDocument;
        if (child && !documents.includes(child)) documents.push(child);
      } catch (_) {}
    }
  }
  let els = documents.flatMap(doc => [...doc.querySelectorAll(f.selector)]);
  if (f.contains !== null)
    els = els.filter(e => ((e.textContent || '') + ' ' + (e.value || '')).includes(f.contains));
  const el = els[f.nth];
  if (!el) throw new Error(`no match for ${f.selector} (nth=${f.nth})`);
  return el;
};
const fire = (el, t) => el.dispatchEvent(new Event(t, { bubbles: true }));
const applied = [];
let lastEl = null;
for (let i = 0; i < FIELDS.length; i++) {
  const f = FIELDS[i];
  let el;
  try {
    el = findTarget(f);
  } catch (err) {
    return { filled: applied.length, total: FIELDS.length, applied,
              failed: { index: i, error: String(err.message || err) } };
  }
  const view = el.ownerDocument.defaultView || window;
  try {
    if (f.checked !== null) {
      if (!(el instanceof view.HTMLInputElement) || (el.type !== 'checkbox' && el.type !== 'radio'))
        throw new Error(`element <${el.tagName.toLowerCase()}> is not a checkbox/radio`);
      if (el.checked !== f.checked) {
        el.click();
        if (el.checked !== f.checked) {
          const setter = Object.getOwnPropertyDescriptor(view.HTMLInputElement.prototype, 'checked').set;
          setter.call(el, f.checked);
          fire(el, 'input'); fire(el, 'change');
        }
      }
      applied.push({ index: i, tag: el.tagName.toLowerCase(), checked: el.checked });
    } else if (el instanceof view.HTMLSelectElement) {
      const opt = [...el.options].find(o => o.value === f.value || o.textContent.trim() === f.value);
      if (!opt) throw new Error(`no <option> matching ${JSON.stringify(f.value)}`);
      el.value = opt.value;
      fire(el, 'input'); fire(el, 'change');
      applied.push({ index: i, tag: 'select', value: el.value });
    } else if (el instanceof view.HTMLInputElement || el instanceof view.HTMLTextAreaElement) {
      const proto = el instanceof view.HTMLInputElement
        ? view.HTMLInputElement.prototype : view.HTMLTextAreaElement.prototype;
      const setter = Object.getOwnPropertyDescriptor(proto, 'value').set;
      el.focus && el.focus();
      setter.call(el, f.value);
      fire(el, 'input'); fire(el, 'change');
      applied.push({ index: i, tag: el.tagName.toLowerCase(), value: String(el.value).slice(0, 100) });
    } else if (el.isContentEditable) {
      const doc = el.ownerDocument;
      const selection = doc.getSelection();
      const range = doc.createRange();
      range.selectNodeContents(el);
      selection.removeAllRanges();
      selection.addRange(range);
      el.dispatchEvent(new InputEvent('beforeinput', { bubbles: true, cancelable: true, inputType: 'insertText', data: f.value }));
      doc.execCommand ? doc.execCommand('insertText', false, f.value) : el.textContent = f.value;
      fire(el, 'input');
      applied.push({ index: i, tag: el.tagName.toLowerCase(), value: f.value.slice(0, 100) });
    } else {
      throw new Error(`element <${el.tagName.toLowerCase()}> is not fillable`);
    }
  } catch (err) {
    return { filled: applied.length, total: FIELDS.length, applied,
              failed: { index: i, error: String(err.message || err) } };
  }
  lastEl = el;
}
let submitted = false;
if (SUBMIT && lastEl && lastEl.form) {
  lastEl.form.requestSubmit ? lastEl.form.requestSubmit() : lastEl.form.submit();
  submitted = true;
}
return { filled: applied.length, total: FIELDS.length, applied, submitted, url: location.href };"#;

/// What is wrong with field `f` at position `index`, if anything: the
/// target is checked before the content.
pub open spec fn field_problem(f: FormField, index: usize) -> Option<FillFormError> {
    if f.selector.is_some() == f.element_ref.is_some() {
        Some(FillFormError::TargetNotExclusive { index })
    } else if f.value.is_some() == f.checked.is_some() {
        Some(FillFormError::ContentNotExclusive { index })
    } else {
        None
    }
}

/// The problem of the first faulty field at or after position `i`.
pub open spec fn first_field_problem(fields: Seq<FormField>, i: int) -> Option<FillFormError>
    decreases fields.len() - i,
{
    if i < 0 || i >= fields.len() {
        None
    } else {
        match field_problem(fields[i], i as usize) {
            Some(e) => Some(e),
            None => first_field_problem(fields, i + 1),
        }
    }
}

/// Why a request with these fields is refused, if it is.
pub open spec fn fill_form_error(fields: Seq<FormField>) -> Option<FillFormError> {
    if fields.len() == 0 {
        Some(FillFormError::NoFields)
    } else if fields.len() > FILL_FORM_MAX_FIELDS {
        Some(FillFormError::TooManyFields { count: fields.len() as usize })
    } else {
        first_field_problem(fields, 0)
    }
}

/// `true`, `false` or `null`.
pub open spec fn bool_or_null(b: Option<bool>) -> Seq<char> {
    match b {
        Some(true) => "true"@,
        Some(false) => "false"@,
        None => "null"@,
    }
}

/// A decimal number or `null`.
pub open spec fn number_or_null(n: Option<u32>) -> Seq<char> {
    match n {
        Some(k) => decimal(k as nat),
        None => "null"@,
    }
}

/// The script object literal describing one field.
pub open spec fn field_literal(f: FormField) -> Seq<char> {
    "{ selector: "@ + json_or_null(opt_view(f.selector)) + ", nth: "@ + decimal(
        match f.nth {
            Some(k) => k as nat,
            None => 0,
        },
    ) + ", contains: "@ + json_or_null(opt_view(f.contains)) + ", ref: "@ + number_or_null(
        f.element_ref,
    ) + ", value: "@ + json_or_null(opt_view(f.value)) + ", checked: "@ + bool_or_null(f.checked)
        + " }"@
}

/// The field literals of `fields[0..n]`, separated by `, `.
pub open spec fn field_list(fields: Seq<FormField>, n: int) -> Seq<char>
    decreases n,
{
    if n <= 0 {
        Seq::empty()
    } else if n == 1 {
        field_literal(fields[0])
    } else {
        field_list(fields, n - 1) + ", "@ + field_literal(fields[n - 1])
    }
}

/// The whole fill script.
pub open spec fn fill_form_script(fields: Seq<FormField>, submit: bool) -> Seq<char> {
    "\nconst FIELDS = ["@ + field_list(fields, fields.len() as int) + "];\nconst SUBMIT = "@
        + (if submit {
        "true"@
    } else {
        "false"@
    }) + ";"@ + FILL_FORM_BODY@
}

impl FillFormError {
    /// The message a refused request is answered with.
    pub open spec fn message_spec(self) -> Seq<char> {
        match self {
            FillFormError::NoFields => "fill_form needs at least one field"@,
            FillFormError::TooManyFields { count } => "fill_form has "@ + decimal(count as nat)
                + " fields; the cap is "@ + decimal(FILL_FORM_MAX_FIELDS as nat),
            FillFormError::TargetNotExclusive { index } => "fill_form field "@ + decimal(
                index as nat,
            ) + ": pass exactly one of selector or ref"@,
            FillFormError::ContentNotExclusive { index } => "fill_form field "@ + decimal(
                index as nat,
            ) + ": pass exactly one of value or checked"@,
        }
    }

    /// The message a refused request is answered with.
    pub fn message(&self) -> (m: String)
        ensures
            m@ == self.message_spec(),
    {
        let mut m = String::new();
        match self {
            FillFormError::NoFields => push_str(&mut m, "fill_form needs at least one field"),
            FillFormError::TooManyFields { count } => {
                push_str(&mut m, "fill_form has ");
                push_decimal(&mut m, *count as u64);
                push_str(&mut m, " fields; the cap is ");
                push_decimal(&mut m, FILL_FORM_MAX_FIELDS as u64);
            },
            FillFormError::TargetNotExclusive { index } => {
                push_str(&mut m, "fill_form field ");
                push_decimal(&mut m, *index as u64);
                push_str(&mut m, ": pass exactly one of selector or ref");
            },
            FillFormError::ContentNotExclusive { index } => {
                push_str(&mut m, "fill_form field ");
                push_decimal(&mut m, *index as u64);
                push_str(&mut m, ": pass exactly one of value or checked");
            },
        }
        m
    }
}

fn push_json_or_null(out: &mut String, s: &Option<String>)
    ensures
        final(out)@ == old(out)@ + json_or_null(opt_view(*s)),
{
    let q = json_quote_or_null(
        match s {
            Some(s) => Some(s.as_str()),
            None => None,
        },
    );
    push_str(out, q.as_str());
}

fn push_number_or_null(out: &mut String, n: Option<u32>)
    ensures
        final(out)@ == old(out)@ + number_or_null(n),
{
    match n {
        Some(k) => push_decimal(out, k as u64),
        None => push_str(out, "null"),
    }
}

fn push_bool_or_null(out: &mut String, b: Option<bool>)
    ensures
        final(out)@ == old(out)@ + bool_or_null(b),
{
    match b {
        Some(true) => push_str(out, "true"),
        Some(false) => push_str(out, "false"),
        None => push_str(out, "null"),
    }
}

/// Appends the script object literal for one field.
pub fn push_field_literal(out: &mut String, f: &FormField)
    ensures
        final(out)@ == old(out)@ + field_literal(*f),
{
    let ghost start = out@;
    let nth: u64 = match f.nth {
        Some(k) => k as u64,
        None => 0,
    };
    push_str(out, "{ selector: ");
    push_json_or_null(out, &f.selector);
    push_str(out, ", nth: ");
    push_decimal(out, nth);
    push_str(out, ", contains: ");
    push_json_or_null(out, &f.contains);
    push_str(out, ", ref: ");
    push_number_or_null(out, f.element_ref);
    push_str(out, ", value: ");
    push_json_or_null(out, &f.value);
    push_str(out, ", checked: ");
    push_bool_or_null(out, f.checked);
    push_str(out, " }");
    assert(out@ =~= start + field_literal(*f));
}

/// Why a request with these fields is refused, if it is.
pub fn check_fields(fields: &Vec<FormField>) -> (r: Option<FillFormError>)
    ensures
        r == fill_form_error(fields@),
{
    if fields.len() == 0 {
        return Some(FillFormError::NoFields);
    }
    if fields.len() > FILL_FORM_MAX_FIELDS {
        return Some(FillFormError::TooManyFields { count: fields.len() });
    }
    let mut i: usize = 0;
    while i < fields.len()
        invariant
            0 < fields@.len() <= FILL_FORM_MAX_FIELDS,
            i <= fields@.len(),
            first_field_problem(fields@, 0) == first_field_problem(fields@, i as int),
        decreases fields.len() - i,
    {
        let f = &fields[i];
        if f.selector.is_some() == f.element_ref.is_some() {
            return Some(FillFormError::TargetNotExclusive { index: i });
        }
        if f.value.is_some() == f.checked.is_some() {
            return Some(FillFormError::ContentNotExclusive { index: i });
        }
        i += 1;
    }
    None
}

/// Validates a fill request and builds its script; when `submit` is set
/// the script submits the last field's form, and a navigation is the
/// expected outcome.
pub fn fill_form(fields: &Vec<FormField>, submit: bool) -> (r: Result<FillFormPlan, FillFormError>)
    ensures
        match r {
            Ok(plan) => fill_form_error(fields@).is_none() && plan.script@ == fill_form_script(
                fields@,
                submit,
            ) && plan.nav == (if submit {
                NavPolicy::Success
            } else {
                NavPolicy::Error
            }),
            Err(e) => fill_form_error(fields@) == Some(e),
        },
{
    match check_fields(fields) {
        Some(e) => {
            return Err(e);
        },
        None => {},
    }
    let mut js = String::new();
    push_str(&mut js, "\nconst FIELDS = [");
    let ghost head = js@;
    let n = fields.len();
    let mut i: usize = 0;
    while i < n
        invariant
            n == fields@.len(),
            i <= n,
            js@ == head + field_list(fields@, i as int),
        decreases n - i,
    {
        if i > 0 {
            push_str(&mut js, ", ");
        }
        push_field_literal(&mut js, &fields[i]);
        i += 1;
    }
    push_str(&mut js, "];\nconst SUBMIT = ");
    if submit {
        push_str(&mut js, "true");
    } else {
        push_str(&mut js, "false");
    }
    push_str(&mut js, ";");
    push_str(&mut js, FILL_FORM_BODY);
    assert(js@ =~= fill_form_script(fields@, submit));
    let nav = if submit {
        NavPolicy::Success
    } else {
        NavPolicy::Error
    };
    Ok(FillFormPlan { script: js, nav })
}

/// The checked state requested for a field is the one its literal asks
/// the page for: the literal ends with `, checked: true }` for a request to
/// tick, `, checked: false }` for a request to clear, and
/// `, checked: null }` for a value field; so two fields that differ only
/// in the requested state get different literals.
pub proof fn lemma_field_literal_checked(f: FormField)
    ensures
        ({
            let lit = field_literal(f);
            let tail = match f.checked {
                Some(true) => ", checked: true }"@,
                Some(false) => ", checked: false }"@,
                None => ", checked: null }"@,
            };
            &&& lit.len() >= tail.len()
            &&& lit.skip(lit.len() - tail.len()) == tail
        }),
{
    reveal_strlit(", checked: true }");
    reveal_strlit(", checked: false }");
    reveal_strlit(", checked: null }");
    reveal_strlit(", checked: ");
    reveal_strlit(" }");
    reveal_strlit("true");
    reveal_strlit("false");
    reveal_strlit("null");
    let lit = field_literal(f);
    let head = "{ selector: "@ + json_or_null(opt_view(f.selector)) + ", nth: "@ + decimal(
        match f.nth {
            Some(k) => k as nat,
            None => 0,
        },
    ) + ", contains: "@ + json_or_null(opt_view(f.contains)) + ", ref: "@ + number_or_null(
        f.element_ref,
    ) + ", value: "@ + json_or_null(opt_view(f.value));
    let tail = ", checked: "@ + bool_or_null(f.checked) + " }"@;
    assert(lit == head + tail);
    assert((head + tail).skip(head.len() as int) =~= tail);
    match f.checked {
        Some(true) => assert(tail =~= ", checked: true }"@),
        Some(false) => assert(tail =~= ", checked: false }"@),
        None => assert(tail =~= ", checked: null }"@),
    }
}

/// A field without an index targets the first match: its literal is that
/// of the same field with index zero.
pub proof fn lemma_field_nth_default(f: FormField)
    ensures
        f.nth.is_none() ==> field_literal(f) == field_literal(FormField { nth: Some(0u32), ..f }),
{
}

} // verus!
