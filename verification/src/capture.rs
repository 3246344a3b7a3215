//! Frame capture from a bound window: the checks around the SDK's frame reads, the crop of the
//! window frame to its client area, point sampling and PNG previews, and the messages a
//! failed bind, restore or capture start is answered with.

use vstd::prelude::*;
use vstd::slice::slice_subrange;

use crate::codec::{
    base64_encoded, begins_with, concat_error, image_error_text, png_data_url, png_encode_rgba,
    png_encoded,
};
use crate::frame::{frame_holds, pixel_at, pixel_spec};
use crate::text::{decimal, push_decimal, push_signed_decimal, signed_decimal};

verus! {

/// SDK status: success.
pub const WINSITTER_OK: i32 = 0;
/// SDK status: the output buffer is too small (normal when asking for the frame size).
pub const WINSITTER_ERR_BUFFER_TOO_SMALL: i32 = -1008;
/// SDK status: the window is minimised, so capture cannot start.
pub const WINSITTER_ERR_CAPTURE_WINDOW_MINIMIZED: i32 = -1109;
/// SDK status: Windows refused the window request (elevation needed).
pub const WINSITTER_ERR_WINDOW_ACCESS_DENIED: i32 = -1507;
/// Window state: minimised.
pub const WINDOW_STATE_MINIMIZED: u32 = 2;

/// The answer to a successful bind.
#[derive(Debug)]
pub struct BoundTarget {
    /// The target id this tool assigned.
    pub target_id: u64,
    /// The bound window handle.
    pub hwnd: usize,
    /// The window title.
    pub title: String,
    /// Why a minimised window could not be restored, if it could not.
    pub restore_warning: Option<String>,
}

/// A frame as a PNG data URL, for preview.
#[derive(Debug)]
pub struct FramePayload {
    pub png_data_url: String,
    pub width: u32,
    pub height: u32,
}

/// A point in frame coordinates.
#[derive(Clone, Copy, Debug, PartialEq, Eq, Structural)]
pub struct SamplePoint {
    pub x: u32,
    pub y: u32,
}

/// The screen position of a window's client-area origin (frame point (0, 0)).
#[derive(Clone, Copy, Debug, PartialEq, Eq, Structural)]
pub struct ScreenOrigin {
    pub x: i32,
    pub y: i32,
}

/// The live state of a window as the SDK reports it.
#[derive(Clone, Copy, Debug, Default, PartialEq, Eq, Structural)]
pub struct WindowInfo {
    pub struct_size: u32,
    pub abi_version: u32,
    pub window_handle: usize,
    pub process_id: u32,
    pub thread_id: u32,
    pub state: u32,
    pub flags: u32,
    /// Left edge of the extended window frame (physical screen pixels).
    pub left: i32,
    /// Top edge of the extended window frame.
    pub top: i32,
    /// Right edge of the extended window frame.
    pub right: i32,
    /// Bottom edge of the extended window frame.
    pub bottom: i32,
    pub client_width: u32,
    pub client_height: u32,
    pub dpi: u32,
    pub monitor_handle: usize,
    pub os_error: u32,
}

// ---------------------------------------------------------------- messages

pub open spec fn code_message(head: Seq<char>, code: i32, tail: Seq<char>) -> Seq<char> {
    head + signed_decimal(code as int) + tail
}

fn code_text(head: &str, code: i32, tail: &str) -> (text: String)
    ensures
        text@ == code_message(head@, code, tail@),
{
    let mut s = String::from_str(head);
    push_signed_decimal(&mut s, code as i64);
    s.append(tail);
    s
}

/// A zero window handle is refused before any SDK call.
pub fn check_window_handle(hwnd: usize) -> (res: Result<(), String>)
    ensures
        res is Ok <==> hwnd != 0,
        res matches Err(t) ==> t@ == "E1101: 无效的窗口句柄"@,
{
    if hwnd == 0 {
        Err(String::from_str("E1101: 无效的窗口句柄"))
    } else {
        Ok(())
    }
}

/// The answer when the SDK cannot bind a window.
pub fn bind_failed(code: i32) -> (text: String)
    ensures
        text@ == code_message("E1102: 绑定窗口失败（winsitter 错误码 "@, code, "），窗口可能已关闭"@),
{
    code_text("E1102: 绑定窗口失败（winsitter 错误码 ", code, "），窗口可能已关闭")
}

pub open spec fn access_denied_warning() -> Seq<char> {
    "窗口已最小化，恢复被 Windows 以权限不足拒绝；可在左侧窗口列表重新点击该窗口，会自动弹 UAC 提权"@
}

/// The warning a bind carries when restoring its minimised window failed; binding goes on.
pub fn restore_warning(code: i32) -> (text: String)
    ensures
        code == WINSITTER_ERR_WINDOW_ACCESS_DENIED ==> text@ == access_denied_warning(),
        code != WINSITTER_ERR_WINDOW_ACCESS_DENIED ==> text@ == code_message(
            "窗口已最小化且自动恢复失败（winsitter 错误码 "@,
            code,
            "）；可在左侧窗口列表重新点击该窗口触发恢复"@,
        ),
{
    if code == WINSITTER_ERR_WINDOW_ACCESS_DENIED {
        String::from_str("窗口已最小化，恢复被 Windows 以权限不足拒绝；可在左侧窗口列表重新点击该窗口，会自动弹 UAC 提权")
    } else {
        code_text("窗口已最小化且自动恢复失败（winsitter 错误码 ", code, "）；可在左侧窗口列表重新点击该窗口触发恢复")
    }
}

/// Whether a window in this state is restored before capture starts.
pub fn needs_restore(window_state: u32) -> (restore: bool)
    ensures
        restore == (window_state == WINDOW_STATE_MINIMIZED),
{
    window_state == WINDOW_STATE_MINIMIZED
}

/// The failure a capture start reports, if it failed (the session is then released).
pub fn capture_start_failure(code: i32) -> (failure: Option<String>)
    ensures
        failure is None <==> code == WINSITTER_OK,
        code == WINSITTER_ERR_CAPTURE_WINDOW_MINIMIZED ==> (failure matches Some(t) && t@
            == "E1103: 目标窗口已最小化，无法产生有效画面，请先恢复窗口再绑定"@),
        code != WINSITTER_OK && code != WINSITTER_ERR_CAPTURE_WINDOW_MINIMIZED ==> (failure matches Some(t)
            && t@ == code_message("E1103: 启动捕获流失败（winsitter 错误码 "@, code, "）"@)),
{
    if code == WINSITTER_ERR_CAPTURE_WINDOW_MINIMIZED {
        Some(String::from_str("E1103: 目标窗口已最小化，无法产生有效画面，请先恢复窗口再绑定"))
    } else if code != WINSITTER_OK {
        Some(code_text("E1103: 启动捕获流失败（winsitter 错误码 ", code, "）"))
    } else {
        None
    }
}

/// The answer to a restore request from the window list: `None` when the SDK restored the
/// window, else the status it failed with.
pub fn restore_outcome(failure: Option<i32>) -> (res: Result<(), String>)
    ensures
        res is Ok <==> failure is None,
        failure == Some(WINSITTER_ERR_WINDOW_ACCESS_DENIED) ==> (res matches Err(t) && t@
            == "E1104: 权限不足，恢复被 Windows 拒绝（winsitter 错误码 -1507）"@),
        failure is Some && failure->0 != WINSITTER_ERR_WINDOW_ACCESS_DENIED ==> (res matches Err(t) && t@
            == code_message("E1104: 恢复窗口失败（winsitter 错误码 "@, failure->0, "）"@)),
{
    match failure {
        None => Ok(()),
        Some(code) => {
            if code == WINSITTER_ERR_WINDOW_ACCESS_DENIED {
                Err(String::from_str("E1104: 权限不足，恢复被 Windows 拒绝（winsitter 错误码 -1507）"))
            } else {
                Err(code_text("E1104: 恢复窗口失败（winsitter 错误码 ", code, "）"))
            }
        },
    }
}

/// A request to relaunch elevated is refused when this process already runs elevated.
pub fn check_not_elevated(already_elevated: bool) -> (res: Result<(), String>)
    ensures
        res is Ok <==> !already_elevated,
        res matches Err(t) ==> t@ == "E1105: 本工具已以管理员权限运行，无需提权"@,
{
    if already_elevated {
        Err(String::from_str("E1105: 本工具已以管理员权限运行，无需提权"))
    } else {
        Ok(())
    }
}

/// The outcome of the shell's elevated launch, whose result code is at most 32 on failure.
pub fn launch_outcome(code: i64) -> (res: Result<(), String>)
    ensures
        res is Ok <==> code > 32,
        res matches Err(t) ==> t@ == "E1107: 提权启动失败（ShellExecute 代码 "@ + signed_decimal(code as int)
            + "），可能已取消 UAC"@,
{
    if code <= 32 {
        let mut s = String::from_str("E1107: 提权启动失败（ShellExecute 代码 ");
        push_signed_decimal(&mut s, code);
        s.append("），可能已取消 UAC");
        Err(s)
    } else {
        Ok(())
    }
}

/// The screen origin of a client area, from the conversion of its (0, 0) point, which may fail.
pub fn screen_origin(converted: Option<(i32, i32)>) -> (res: Result<ScreenOrigin, String>)
    ensures
        converted is None <==> res is Err,
        res matches Err(t) ==> t@ == "E2201: 无法换算窗口屏幕坐标"@,
        converted matches Some(p) ==> res == Ok::<ScreenOrigin, String>(ScreenOrigin { x: p.0, y: p.1 }),
{
    match converted {
        Some(p) => Ok(ScreenOrigin { x: p.0, y: p.1 }),
        None => Err(String::from_str("E2201: 无法换算窗口屏幕坐标")),
    }
}

// ---------------------------------------------------------------- reading a frame

/// What a size probe (a frame read into an empty buffer) reports: the buffer size to allocate.
pub open spec fn probe_spec(code: i32, width: i32, height: i32, size: i32) -> Result<usize, Seq<char>> {
    if code != WINSITTER_OK && code != WINSITTER_ERR_BUFFER_TOO_SMALL {
        Err(code_message("E2101: 取帧失败（winsitter 错误码 "@, code, "），窗口可能已关闭或最小化"@))
    } else if size <= 0 || width <= 0 || height <= 0 {
        Err("E2102: 捕获流尚未产生有效帧，请确认目标窗口可见"@)
    } else {
        Ok(size as usize)
    }
}

/// Checks the SDK's answer to a size probe.
pub fn check_probe(code: i32, width: i32, height: i32, size: i32) -> (res: Result<usize, String>)
    ensures
        match probe_spec(code, width, height, size) {
            Ok(n) => res == Ok::<usize, String>(n),
            Err(m) => res matches Err(t) && t@ == m,
        },
{
    if code != WINSITTER_OK && code != WINSITTER_ERR_BUFFER_TOO_SMALL {
        return Err(code_text("E2101: 取帧失败（winsitter 错误码 ", code, "），窗口可能已关闭或最小化"));
    }
    if size <= 0 || width <= 0 || height <= 0 {
        return Err(String::from_str("E2102: 捕获流尚未产生有效帧，请确认目标窗口可见"));
    }
    Ok(size as usize)
}

/// A read that found the buffer too small for a frame that grew between the two calls is
/// repeated once with the size the SDK wrote back.
pub fn needs_larger_buffer(code: i32, size: i32, buffer_len: usize) -> (retry: bool)
    ensures
        retry == (code == WINSITTER_ERR_BUFFER_TOO_SMALL && size > buffer_len as i32),
{
    code == WINSITTER_ERR_BUFFER_TOO_SMALL && size > #[verifier::truncate] (buffer_len as i32)
}

/// The length a buffer keeps when truncated to the size the SDK reported.
pub open spec fn kept_length(size: i32, buffer_len: usize) -> int {
    let wanted = if size > 0 { size as int } else { 0 };
    if wanted < buffer_len { wanted } else { buffer_len as int }
}

/// What the final read of a frame gives: width, height and the bytes to keep, or why the frame
/// is unusable.
pub open spec fn read_spec(code: i32, width: i32, height: i32, size: i32, buffer_len: usize) -> Result<
    (u32, u32, usize),
    Seq<char>,
> {
    let kept = kept_length(size, buffer_len);
    let (w, h) = (width as u32, height as u32);
    if code != WINSITTER_OK {
        Err(code_message("E2103: 读取帧像素失败（winsitter 错误码 "@, code, "）"@))
    } else if w * h * 4 > u64::MAX {
        Err("E2104: 捕获帧尺寸计算溢出"@)
    } else if w * h * 4 != kept {
        Err("E2104: 帧缓冲长度 "@ + decimal(kept as nat) + " 与尺寸 "@ + decimal(w as nat) + "x"@ + decimal(
            h as nat,
        ) + " RGBA 不一致"@)
    } else {
        Ok((w, h, kept as usize))
    }
}

/// Checks the SDK's answer to the final frame read: the frame must be exactly `width x height`
/// RGBA pixels once the buffer is cut to the reported size.
pub fn check_read(code: i32, width: i32, height: i32, size: i32, buffer_len: usize) -> (res: Result<
    (u32, u32, usize),
    String,
>)
    ensures
        match read_spec(code, width, height, size, buffer_len) {
            Ok(v) => res == Ok::<(u32, u32, usize), String>(v),
            Err(m) => res matches Err(t) && t@ == m,
        },
{
    if code != WINSITTER_OK {
        return Err(code_text("E2103: 读取帧像素失败（winsitter 错误码 ", code, "）"));
    }
    let wanted: usize = if size > 0 { size as usize } else { 0 };
    let kept: usize = if wanted < buffer_len { wanted } else { buffer_len };
    let w: u32 = #[verifier::truncate] (width as u32);
    let h: u32 = #[verifier::truncate] (height as u32);
    assert(w * h <= 0xffff_fffe_0000_0001) by (nonlinear_arith)
        requires
            w <= 0xffff_ffff,
            h <= 0xffff_ffff,
    ;
    let pixels: u64 = w as u64 * h as u64;
    let expected: u64 = match pixels.checked_mul(4) {
        Some(n) => n,
        None => {
            return Err(String::from_str("E2104: 捕获帧尺寸计算溢出"));
        },
    };
    if expected != kept as u64 {
        let mut s = String::from_str("E2104: 帧缓冲长度 ");
        push_decimal(&mut s, kept as u128);
        s.append(" 与尺寸 ");
        push_decimal(&mut s, w as u128);
        s.append("x");
        push_decimal(&mut s, h as u128);
        s.append(" RGBA 不一致");
        return Err(s);
    }
    Ok((w, h, kept))
}

// ---------------------------------------------------------------- client-area crop

/// The length of the interval `lo..hi`, zero when it is empty.
pub open spec fn extent(lo: i32, hi: i32) -> u32 {
    if hi - lo > 0 {
        (hi - lo) as u32
    } else {
        0
    }
}

pub open spec fn frame_mismatch_message(fw: u32, fh: u32, ew: u32, eh: u32, cw: u32, ch: u32) -> Seq<char> {
    "E2204: 捕获帧 "@ + decimal(fw as nat) + "x"@ + decimal(fh as nat) + " 与窗口边界 "@ + decimal(ew as nat)
        + "x"@ + decimal(eh as nat) + "、客户区 "@ + decimal(cw as nat) + "x"@ + decimal(ch as nat)
        + " 不一致，已停止取帧以避免使用错误坐标"@
}

/// Before the client origin is looked up: the frame is already the client area (`Ok(false)`),
/// the crop needs the client origin (`Ok(true)`), or the frame cannot be trusted.
pub open spec fn crop_precheck_spec(info: WindowInfo, fw: u32, fh: u32) -> Result<bool, Seq<char>> {
    let (ew, eh) = (extent(info.left, info.right), extent(info.top, info.bottom));
    if info.client_width == 0 || info.client_height == 0 {
        Err("E2203: 目标窗口客户区尺寸无效，已停止取帧以避免坐标漂移"@)
    } else if info.client_width == fw && info.client_height == fh {
        Ok(false)
    } else if ew != fw || eh != fh {
        Err(frame_mismatch_message(fw, fh, ew, eh, info.client_width, info.client_height))
    } else {
        Ok(true)
    }
}

fn extent_exec(lo: i32, hi: i32) -> (e: u32)
    ensures
        e == extent(lo, hi),
{
    let d: i64 = hi as i64 - lo as i64;
    if d > 0 {
        d as u32
    } else {
        0
    }
}

/// The message when the SDK cannot report the window's frame geometry.
pub fn window_info_failed(code: i32) -> (text: String)
    ensures
        text@ == code_message("E2202: 无法确认捕获帧坐标系（winsitter 错误码 "@, code, "）"@),
{
    code_text("E2202: 无法确认捕获帧坐标系（winsitter 错误码 ", code, "）")
}

/// Decides, from the window's geometry, whether a `fw x fh` frame of the whole window must be
/// cropped to the client area. The capture covers the extended window frame; some back ends
/// deliver the client area directly.
pub fn crop_precheck(info: &WindowInfo, fw: u32, fh: u32) -> (res: Result<bool, String>)
    ensures
        match crop_precheck_spec(*info, fw, fh) {
            Ok(b) => res == Ok::<bool, String>(b),
            Err(m) => res matches Err(t) && t@ == m,
        },
{
    if info.client_width == 0 || info.client_height == 0 {
        return Err(String::from_str("E2203: 目标窗口客户区尺寸无效，已停止取帧以避免坐标漂移"));
    }
    if info.client_width == fw && info.client_height == fh {
        return Ok(false);
    }
    let ew = extent_exec(info.left, info.right);
    let eh = extent_exec(info.top, info.bottom);
    if ew != fw || eh != fh {
        let mut s = String::from_str("E2204: 捕获帧 ");
        push_decimal(&mut s, fw as u128);
        s.append("x");
        push_decimal(&mut s, fh as u128);
        s.append(" 与窗口边界 ");
        push_decimal(&mut s, ew as u128);
        s.append("x");
        push_decimal(&mut s, eh as u128);
        s.append("、客户区 ");
        push_decimal(&mut s, info.client_width as u128);
        s.append("x");
        push_decimal(&mut s, info.client_height as u128);
        s.append(" 不一致，已停止取帧以避免使用错误坐标");
        return Err(s);
    }
    Ok(true)
}

/// The client-area rectangle `(x, y, w, h)` inside the frame, from the client origin's screen
/// position (`None` when it could not be converted); `Ok(None)` when the client area is the
/// whole frame.
pub open spec fn crop_rect_spec(info: WindowInfo, origin: Option<(i32, i32)>, fw: u32, fh: u32) -> Result<
    Option<(u32, u32, u32, u32)>,
    Seq<char>,
> {
    let (cw, ch) = (info.client_width, info.client_height);
    if origin is None {
        Err("E2205: 无法换算客户区原点，已停止取帧以避免坐标漂移"@)
    } else {
        let p = origin->0;
        let ox = p.0 - info.left;
        let oy = p.1 - info.top;
        if ox < 0 || oy < 0 {
            Err("E2206: 客户区原点偏移异常 ("@ + signed_decimal(ox) + ", "@ + signed_decimal(oy)
                + ")，已停止取帧以避免坐标漂移"@)
        } else if ox + cw > fw || oy + ch > fh {
            Err("E2207: 客户区裁剪范围 ("@ + decimal(ox as nat) + ", "@ + decimal(oy as nat) + ", "@ + decimal(
                cw as nat,
            ) + ", "@ + decimal(ch as nat) + ") 超出捕获帧 "@ + decimal(fw as nat) + "x"@ + decimal(fh as nat))
        } else if ox == 0 && oy == 0 && cw == fw && ch == fh {
            Ok(None)
        } else {
            Ok(Some((ox as u32, oy as u32, cw, ch)))
        }
    }
}

/// Computes the client-area crop from the client origin's screen position.
pub fn crop_rect(info: &WindowInfo, origin: Option<(i32, i32)>, fw: u32, fh: u32) -> (res: Result<
    Option<(u32, u32, u32, u32)>,
    String,
>)
    ensures
        match crop_rect_spec(*info, origin, fw, fh) {
            Ok(r) => res == Ok::<Option<(u32, u32, u32, u32)>, String>(r),
            Err(m) => res matches Err(t) && t@ == m,
        },
        res matches Ok(Some(r)) ==> r.0 + r.2 <= fw && r.1 + r.3 <= fh,
{
    let (px, py): (i32, i32) = match origin {
        Some(p) => p,
        None => {
            return Err(String::from_str("E2205: 无法换算客户区原点，已停止取帧以避免坐标漂移"));
        },
    };
    let ox: i64 = px as i64 - info.left as i64;
    let oy: i64 = py as i64 - info.top as i64;
    if ox < 0 || oy < 0 {
        let mut s = String::from_str("E2206: 客户区原点偏移异常 (");
        push_signed_decimal(&mut s, ox);
        s.append(", ");
        push_signed_decimal(&mut s, oy);
        s.append(")，已停止取帧以避免坐标漂移");
        return Err(s);
    }
    let cw = info.client_width;
    let ch = info.client_height;
    if ox + cw as i64 > fw as i64 || oy + ch as i64 > fh as i64 {
        let mut s = String::from_str("E2207: 客户区裁剪范围 (");
        push_decimal(&mut s, ox as u128);
        s.append(", ");
        push_decimal(&mut s, oy as u128);
        s.append(", ");
        push_decimal(&mut s, cw as u128);
        s.append(", ");
        push_decimal(&mut s, ch as u128);
        s.append(") 超出捕获帧 ");
        push_decimal(&mut s, fw as u128);
        s.append("x");
        push_decimal(&mut s, fh as u128);
        return Err(s);
    }
    if ox == 0 && oy == 0 && cw == fw && ch == fh {
        return Ok(None);
    }
    Ok(Some((ox as u32, oy as u32, cw, ch)))
}

/// Rows `0..n` of the `w x h` rectangle at (x, y) of a frame `src_w` pixels wide, row by row.
pub open spec fn crop_rows(buffer: Seq<u8>, src_w: u32, x: u32, y: u32, w: u32, n: int) -> Seq<u8>
    decreases n,
{
    if n <= 0 {
        Seq::empty()
    } else {
        let start = (y + n - 1) * (src_w * 4) + x * 4;
        crop_rows(buffer, src_w, x, y, w, n - 1) + buffer.subrange(start, start + w * 4)
    }
}

proof fn lemma_crop_rows_len(buffer: Seq<u8>, src_w: u32, x: u32, y: u32, w: u32, n: int)
    requires
        0 <= n,
        x + w <= src_w,
        (y + n) * (src_w * 4) <= buffer.len(),
    ensures
        crop_rows(buffer, src_w, x, y, w, n).len() == n * (w * 4),
    decreases n,
{
    if n > 0 {
        assert((y + n - 1) * (src_w * 4) <= (y + n) * (src_w * 4)) by (nonlinear_arith)
            requires
                n > 0,
        ;
        lemma_crop_rows_len(buffer, src_w, x, y, w, n - 1);
        assert((y + n - 1) * (src_w * 4) + x * 4 + w * 4 <= (y + n) * (src_w * 4)) by (nonlinear_arith)
            requires
                x + w <= src_w,
        ;
        assert((n - 1) * (w * 4) + w * 4 == n * (w * 4)) by (nonlinear_arith);
    } else {
        assert(n * (w * 4) == 0) by (nonlinear_arith)
            requires
                n == 0,
        ;
    }
}

proof fn lemma_crop_rows_pixel(buffer: Seq<u8>, src_w: u32, x: u32, y: u32, w: u32, n: int, c: u32, r: u32)
    requires
        x + w <= src_w,
        (y + n) * (src_w * 4) <= buffer.len(),
        y + n <= u32::MAX,
        c < w,
        r < n,
    ensures
        pixel_spec(crop_rows(buffer, src_w, x, y, w, n), w, c, r) == pixel_spec(
            buffer,
            src_w,
            (x + c) as u32,
            (y + r) as u32,
        ),
    decreases n,
{
    let whole = crop_rows(buffer, src_w, x, y, w, n);
    let first = crop_rows(buffer, src_w, x, y, w, n - 1);
    let start = (y + n - 1) * (src_w * 4) + x * 4;
    let last = buffer.subrange(start, start + w * 4);
    assert((y + n - 1) * (src_w * 4) <= (y + n) * (src_w * 4)) by (nonlinear_arith)
        requires
            n >= 1,
    ;
    assert(start + w * 4 <= (y + n) * (src_w * 4)) by (nonlinear_arith)
        requires
            x + w <= src_w,
            start == (y + n - 1) * (src_w * 4) + x * 4,
    ;
    lemma_crop_rows_len(buffer, src_w, x, y, w, n - 1);
    assert(whole == first + last);
    let off = (r * w + c) * 4;
    assert(off == crate::frame::pixel_offset(w, c, r));
    if r < n - 1 {
        assert(off + 4 <= (n - 1) * (w * 4)) by (nonlinear_arith)
            requires
                off == (r * w + c) * 4,
                c < w,
                r < n - 1,
        ;
        lemma_crop_rows_pixel(buffer, src_w, x, y, w, n - 1, c, r);
        assert(whole.subrange(off, off + 4) =~= first.subrange(off, off + 4));
    } else {
        assert(off == (n - 1) * (w * 4) + c * 4) by (nonlinear_arith)
            requires
                off == (r * w + c) * 4,
                r == n - 1,
        ;
        let src_off = crate::frame::pixel_offset(src_w, (x + c) as u32, (y + r) as u32);
        assert(src_off == start + c * 4) by (nonlinear_arith)
            requires
                src_off == ((y + r) * src_w + (x + c)) * 4,
                start == (y + n - 1) * (src_w * 4) + x * 4,
                r == n - 1,
        ;
        assert(whole.subrange(off, off + 4) =~= buffer.subrange(src_off, src_off + 4));
    }
}

/// Law: the crop keeps pixels in place: its pixel (c, r) is the frame's pixel (x + c, y + r).
pub proof fn crop_keeps_pixels(buffer: Seq<u8>, src_w: u32, x: u32, y: u32, w: u32, h: u32, c: u32, r: u32)
    requires
        x + w <= src_w,
        (y + h) * (src_w * 4) <= buffer.len(),
        y + h <= u32::MAX,
        c < w,
        r < h,
    ensures
        pixel_spec(crop_rows(buffer, src_w, x, y, w, h as int), w, c, r) == pixel_spec(
            buffer,
            src_w,
            (x + c) as u32,
            (y + r) as u32,
        ),
{
    lemma_crop_rows_pixel(buffer, src_w, x, y, w, h as int, c, r);
}

/// Copies the `w x h` rectangle at (x, y) out of an RGBA frame `src_w` pixels wide, row by row.
pub fn crop_rgba(buffer: &[u8], src_w: u32, x: u32, y: u32, w: u32, h: u32) -> (out: Vec<u8>)
    requires
        x + w <= src_w,
        src_w * 4 <= usize::MAX,
        (y + h) * (src_w * 4) <= buffer@.len(),
    ensures
        out@ == crop_rows(buffer@, src_w, x, y, w, h as int),
        out@.len() == h * (w * 4),
{
    let mut out: Vec<u8> = Vec::new();
    if w == 0 {
        proof {
            lemma_crop_rows_len(buffer@, src_w, x, y, w, h as int);
            assert(h * (w * 4) == 0) by (nonlinear_arith)
                requires
                    w == 0,
            ;
            assert(out@ =~= crop_rows(buffer@, src_w, x, y, w, h as int));
        }
        return out;
    }
    let buffer_len: usize = buffer.len();
    assert(buffer_len == buffer@.len());
    let stride: usize = src_w as usize * 4;
    let row_bytes: usize = w as usize * 4;
    assert(y + h <= (y + h) * stride) by (nonlinear_arith)
        requires
            stride >= 4,
            y + h >= 0,
    ;
    let mut row: usize = 0;
    while row < h as usize
        invariant
            x + w <= src_w,
            (y + h) * (src_w * 4) <= buffer@.len(),
            stride == src_w * 4,
            row_bytes == w * 4,
            y + h <= usize::MAX,
            buffer@.len() <= usize::MAX,
            row <= h,
            out@ == crop_rows(buffer@, src_w, x, y, w, row as int),
        decreases h - row,
    {
        assert((y + row + 1) * stride <= (y + h) * stride) by (nonlinear_arith)
            requires
                row + 1 <= h,
        ;
        assert((y + row) * stride <= (y + row + 1) * stride) by (nonlinear_arith);
        assert((y + row) * stride + x * 4 + row_bytes <= (y + row + 1) * stride) by (nonlinear_arith)
            requires
                x + w <= src_w,
                stride == src_w * 4,
                row_bytes == w * 4,
        ;
        let start: usize = (y as usize + row) * stride + x as usize * 4;
        let piece = slice_subrange(buffer, start, start + row_bytes);
        let ghost prev = out@;
        let mut k: usize = 0;
        while k < piece.len()
            invariant
                k <= piece@.len(),
                out@ == prev + piece@.take(k as int),
            decreases piece@.len() - k,
        {
            out.push(piece[k]);
            assert(piece@.take(k + 1) =~= piece@.take(k as int).push(piece@[k as int]));
            k = k + 1;
        }
        assert(piece@.take(piece@.len() as int) =~= piece@);
        row = row + 1;
    }
    proof {
        lemma_crop_rows_len(buffer@, src_w, x, y, w, h as int);
    }
    out
}

// ---------------------------------------------------------------- sampling and preview

/// The colour at a sampled point, `None` outside the frame.
pub open spec fn sample_spec(frame: Seq<u8>, width: u32, height: u32, p: SamplePoint) -> Option<Seq<u8>> {
    if p.x < width && p.y < height {
        Some(pixel_spec(frame, width, p.x, p.y))
    } else {
        None
    }
}

/// Samples the RGBA colour at each point of a frame; points outside the frame give `None`.
pub fn sample_frame_points(frame: &[u8], width: u32, height: u32, points: &Vec<SamplePoint>) -> (colours: Vec<
    Option<[u8; 4]>,
>)
    requires
        frame_holds(frame@, width, height),
    ensures
        colours@.len() == points@.len(),
        forall|i: int|
            0 <= i < points@.len() ==> match (#[trigger] colours@[i], sample_spec(frame@, width, height, points@[i])) {
                (Some(c), Some(s)) => c@ == s,
                (None, None) => true,
                _ => false,
            },
{
    let mut colours: Vec<Option<[u8; 4]>> = Vec::new();
    let mut i: usize = 0;
    while i < points.len()
        invariant
            frame_holds(frame@, width, height),
            i <= points@.len(),
            colours@.len() == i,
            forall|k: int|
                0 <= k < i ==> match (#[trigger] colours@[k], sample_spec(frame@, width, height, points@[k])) {
                    (Some(c), Some(s)) => c@ == s,
                    (None, None) => true,
                    _ => false,
                },
        decreases points@.len() - i,
    {
        let p = points[i];
        if p.x >= width || p.y >= height {
            colours.push(None);
        } else {
            colours.push(Some(pixel_at(frame, width, height, p.x, p.y)));
        }
        i = i + 1;
    }
    colours
}

/// Whether an RGBA buffer holds a `width x height` image (possibly followed by spare bytes);
/// the byte count `4 * width * height` is computed in `usize` and must not overflow.
pub open spec fn image_fits(len: nat, width: u32, height: u32) -> bool {
    4 * width <= usize::MAX && 4 * width * height <= usize::MAX && width * height * 4 <= len
}

/// Encodes an RGBA frame as a PNG data URL for preview; only the first `width x height` pixels
/// of the buffer are encoded.
pub fn encode_frame(rgba: &[u8], width: u32, height: u32) -> (res: Result<FramePayload, String>)
    ensures
        !image_fits(rgba@.len(), width, height) ==> (res matches Err(t) && t@ == "E2104: 帧缓冲尺寸不一致"@),
        image_fits(rgba@.len(), width, height) ==> (res is Ok <==> png_encoded(
            rgba@.take(width * height * 4),
            width,
            height,
        ) is Some),
        res matches Ok(p) ==> image_fits(rgba@.len(), width, height) && p.width == width && p.height == height
            && p.png_data_url@ == "data:image/png;base64,"@ + base64_encoded(
            png_encoded(rgba@.take(width * height * 4), width, height)->0,
        ),
        image_fits(rgba@.len(), width, height) && res is Err ==> (res matches Err(t) && begins_with(
            t@,
            "E2105: PNG 编码失败："@,
        )),
{
    let w4: usize = match (width as usize).checked_mul(4) {
        Some(n) => n,
        None => {
            return Err(String::from_str("E2104: 帧缓冲尺寸不一致"));
        },
    };
    let needed: usize = match w4.checked_mul(height as usize) {
        Some(n) => n,
        None => {
            return Err(String::from_str("E2104: 帧缓冲尺寸不一致"));
        },
    };
    assert(needed == width * height * 4) by (nonlinear_arith)
        requires
            w4 == width * 4,
            needed == w4 * height,
    ;
    if needed > rgba.len() {
        return Err(String::from_str("E2104: 帧缓冲尺寸不一致"));
    }
    let pixels = slice_subrange(rgba, 0, needed);
    assert(pixels@ =~= rgba@.take(width * height * 4));
    match png_encode_rgba(pixels, width, height) {
        Ok(png) => Ok(FramePayload { png_data_url: png_data_url(png.as_slice()), width, height }),
        Err(error) => Err(concat_error("E2105: PNG 编码失败：", image_error_text(&error))),
    }
}

} // verus!
