//! The extra fragments a slides page carries: a head fragment that marks
//! the document and brings the slide styles, and a body script that pages
//! through the slides.

use vstd::prelude::*;

use crate::text::{chars_string, push_all, str_chars};

verus! {

/// The script that flags the document as a slide deck.
pub open spec fn slides_mode_script() -> Seq<char> {
    "<script>\ndocument.documentElement.classList.add(\"slides-mode\");\n</script>\n"@
}

/// The stylesheet slide decks are shown with.
pub open spec fn slides_style() -> Seq<char> {
    ".slide { display: none; padding: 2rem; }\n.slide.is-active { display: block; }\n.slides-progress { position: fixed; right: 1rem; bottom: 1rem; color: #52606d; }\n"@
}

/// The head fragment of a slides page: the mode script, then the slide
/// styles in a style tag.
pub open spec fn slides_head_spec() -> Seq<char> {
    slides_mode_script() + "<style>\n"@ + slides_style() + "</style>\n"@
}

/// The extra head fragment rendered into a slides page.
pub fn slides_extra_head() -> (r: String)
    ensures
        r@ == slides_head_spec(),
{
    let mut out = str_chars(
        "<script>\ndocument.documentElement.classList.add(\"slides-mode\");\n</script>\n",
    );
    let open_tag = str_chars("<style>\n");
    push_all(&mut out, &open_tag);
    let style = str_chars(
        ".slide { display: none; padding: 2rem; }\n.slide.is-active { display: block; }\n.slides-progress { position: fixed; right: 1rem; bottom: 1rem; color: #52606d; }\n",
    );
    push_all(&mut out, &style);
    let close_tag = str_chars("</style>\n");
    push_all(&mut out, &close_tag);
    assert(out@ =~= slides_head_spec());
    chars_string(&out)
}

/// The paging script a slides page runs: arrow keys and the location
/// hash move between slides, and a progress marker is kept current.
pub open spec fn slides_script() -> Seq<char> {
    "<script>\n(function () {\n  if (window.__rendarSlides) {\n    return;\n  }\n  window.__rendarSlides = true;\n\n  var slides = Array.prototype.slice.call(document.querySelectorAll(\".slide\"));\n  if (!slides.length) {\n    return;\n  }\n  var progress = document.querySelector(\".slides-progress\");\n  var current = 0;\n\n  function clamp(index) {\n    if (index < 0) {\n      return 0;\n    }\n    if (index >= slides.length) {\n      return slides.length - 1;\n    }\n    return index;\n  }\n\n  function parseHash() {\n    var match = window.location.hash.match(/slide-(\\d+)/);\n    if (!match) {\n      return 0;\n    }\n    var value = parseInt(match[1], 10);\n    if (Number.isNaN(value)) {\n      return 0;\n    }\n    return value - 1;\n  }\n\n  function updateProgress(index) {\n    if (!progress) {\n      return;\n    }\n    progress.textContent = (index + 1) + \" / \" + slides.length;\n  }\n\n  function show(index, updateHash) {\n    var next = clamp(index);\n    slides[current].classList.remove(\"is-active\");\n    slides[current].setAttribute(\"aria-hidden\", \"true\");\n    slides[next].classList.add(\"is-active\");\n    slides[next].removeAttribute(\"aria-hidden\");\n    current = next;\n    updateProgress(current);\n    if (updateHash) {\n      var hash = \"#slide-\" + (current + 1);\n      if (window.location.hash !== hash) {\n        window.location.hash = hash;\n      }\n    }\n  }\n\n  function nextSlide() {\n    show(current + 1, true);\n  }\n\n  function previousSlide() {\n    show(current - 1, true);\n  }\n\n  function shouldIgnoreEvent(event) {\n    var target = event.target;\n    if (!target) {\n      return false;\n    }\n    var tag = target.tagName ? target.tagName.toLowerCase() : \"\";\n    return tag === \"input\" || tag === \"textarea\" || target.isContentEditable;\n  }\n\n  document.addEventListener(\"keydown\", function (event) {\n    if (event.defaultPrevented || shouldIgnoreEvent(event)) {\n      return;\n    }\n    if (event.key === \"ArrowRight\" || event.key === \" \" || event.key === \"Spacebar\") {\n      event.preventDefault();\n      nextSlide();\n    } else if (event.key === \"ArrowLeft\") {\n      event.preventDefault();\n      previousSlide();\n    }\n  });\n\n  window.addEventListener(\"hashchange\", function () {\n    show(parseHash(), false);\n  });\n\n  show(parseHash(), false);\n})();\n</script>\n"@
}

/// The extra body fragment rendered into a slides page.
pub fn slides_extra_body() -> (r: &'static str)
    ensures
        r@ == slides_script(),
{
    "<script>\n(function () {\n  if (window.__rendarSlides) {\n    return;\n  }\n  window.__rendarSlides = true;\n\n  var slides = Array.prototype.slice.call(document.querySelectorAll(\".slide\"));\n  if (!slides.length) {\n    return;\n  }\n  var progress = document.querySelector(\".slides-progress\");\n  var current = 0;\n\n  function clamp(index) {\n    if (index < 0) {\n      return 0;\n    }\n    if (index >= slides.length) {\n      return slides.length - 1;\n    }\n    return index;\n  }\n\n  function parseHash() {\n    var match = window.location.hash.match(/slide-(\\d+)/);\n    if (!match) {\n      return 0;\n    }\n    var value = parseInt(match[1], 10);\n    if (Number.isNaN(value)) {\n      return 0;\n    }\n    return value - 1;\n  }\n\n  function updateProgress(index) {\n    if (!progress) {\n      return;\n    }\n    progress.textContent = (index + 1) + \" / \" + slides.length;\n  }\n\n  function show(index, updateHash) {\n    var next = clamp(index);\n    slides[current].classList.remove(\"is-active\");\n    slides[current].setAttribute(\"aria-hidden\", \"true\");\n    slides[next].classList.add(\"is-active\");\n    slides[next].removeAttribute(\"aria-hidden\");\n    current = next;\n    updateProgress(current);\n    if (updateHash) {\n      var hash = \"#slide-\" + (current + 1);\n      if (window.location.hash !== hash) {\n        window.location.hash = hash;\n      }\n    }\n  }\n\n  function nextSlide() {\n    show(current + 1, true);\n  }\n\n  function previousSlide() {\n    show(current - 1, true);\n  }\n\n  function shouldIgnoreEvent(event) {\n    var target = event.target;\n    if (!target) {\n      return false;\n    }\n    var tag = target.tagName ? target.tagName.toLowerCase() : \"\";\n    return tag === \"input\" || tag === \"textarea\" || target.isContentEditable;\n  }\n\n  document.addEventListener(\"keydown\", function (event) {\n    if (event.defaultPrevented || shouldIgnoreEvent(event)) {\n      return;\n    }\n    if (event.key === \"ArrowRight\" || event.key === \" \" || event.key === \"Spacebar\") {\n      event.preventDefault();\n      nextSlide();\n    } else if (event.key === \"ArrowLeft\") {\n      event.preventDefault();\n      previousSlide();\n    }\n  });\n\n  window.addEventListener(\"hashchange\", function () {\n    show(parseHash(), false);\n  });\n\n  show(parseHash(), false);\n})();\n</script>\n"
}

} // verus!
