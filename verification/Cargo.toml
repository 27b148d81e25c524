[package]
name = "plot_3d"
version = "0.1.0"
edition = "2021"
publish = false

[dependencies]
windows = { version = "0.48", features = ["Foundation_Numerics", "Win32_Foundation", "Win32_Graphics_Direct2D", "Win32_Graphics_Direct2D_Common", "Win32_Graphics_Dxgi_Common", "Win32_Graphics_Gdi", "Win32_System_Com", "Win32_System_LibraryLoader", "Win32_System_Performance", "Win32_UI_HiDpi", "Win32_UI_WindowsAndMessaging"] }
